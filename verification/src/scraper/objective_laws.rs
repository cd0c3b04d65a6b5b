//! What the text of an objective asks for.

use crate::scraper::tasks;
use crate::text;
use vstd::prelude::*;
use vstd::string::*;

verus! {

/// The quantity is the first group of a match and the item the second; the
/// pattern for handing in decides before the one for finding, and that before
/// the one without a quantity, which means one.
pub proof fn law_what_is_asked(
    groups: Seq<Option<Seq<char>>>,
    find: Option<Seq<Option<Seq<char>>>>,
    one: Option<Seq<Option<Seq<char>>>>,
    q: u32,
    name: Seq<char>,
)
    requires
        groups.len() >= 3,
        groups[1] == Some(text::decimal(q as nat)),
        groups[2] == Some(name),
    ensures
        tasks::asked(Some(groups), find, one) == Some((q, tasks::cleaned(name))),
        tasks::asked(None, Some(groups), one) == Some((q, tasks::cleaned(name))),
        tasks::asked(None, None, Some(groups)) == Some((1u32, tasks::cleaned(text::decimal(q as nat)))),
        tasks::asked(None, None, None) is None,
{
    text::lemma_decimal_reads_back(q as nat, u32::MAX as nat);
}

/// A quantity that is no count asks for nothing, even where another pattern
/// matches.
pub proof fn law_no_count_no_quantity(
    groups: Seq<Option<Seq<char>>>,
    find: Option<Seq<Option<Seq<char>>>>,
    one: Option<Seq<Option<Seq<char>>>>,
    q: nat,
)
    requires
        groups.len() >= 3,
        groups[1] == Some(text::decimal(q)),
        q > u32::MAX,
    ensures
        tasks::asked(Some(groups), find, one) is None,
{
    text::lemma_decimal_reads_back(q, q);
    text::lemma_decimal_digits(q);
    assert(text::is_digit(text::decimal(q)[0]));
}

proof fn lemma_end(l: Seq<char>, e: Seq<char>, n: int)
    requires
        0 < n <= e.len(),
        text::ends_with(l, e),
    ensures
        l.len() >= e.len(),
        l[l.len() - n] == e[e.len() - n],
{
    let t = l.skip(l.len() - e.len());
    assert(t[e.len() - n] == l[l.len() - n]);
}

/// The qualifier at the end of an item phrase goes, and the blanks before it.
pub proof fn law_qualifiers_go(x: Seq<char>, y: Seq<char>, lx: Seq<char>)
    requires
        lx.len() == x.len(),
    ensures
        y.len() == 20 ==> tasks::unqualified(x + y, lx + " items found in raid"@) == text::trimmed(x),
        y.len() == 14 ==> tasks::unqualified(x + y, lx + " items in raid"@) == text::trimmed(x),
        y.len() == 14 && !text::ends_with(lx, " items"@) ==> tasks::unqualified(
            x + y,
            lx + " found in raid"@,
        ) == text::trimmed(x),
        y.len() == 6 ==> tasks::unqualified(x + y, lx + " items"@) == text::trimmed(x),
        y.len() == 5 ==> tasks::unqualified(x + y, lx + " item"@) == text::trimmed(x),
{
    reveal_strlit(" items found in raid");
    reveal_strlit(" items in raid");
    reveal_strlit(" found in raid");
    reveal_strlit(" in raid");
    reveal_strlit(" items");
    reveal_strlit(" item");
    let s = x + y;
    assert(s.take(x.len() as int) =~= x);
    let a = lx + " items found in raid"@;
    assert(a.skip(lx.len() as int) =~= " items found in raid"@);
    let b = lx + " items in raid"@;
    assert(b.skip(lx.len() as int) =~= " items in raid"@);
    if text::ends_with(b, " items found in raid"@) {
        lemma_end(b, " items found in raid"@, 9);
        assert(b[b.len() - 9] == " items in raid"@[5]);
    }
    let c = lx + " found in raid"@;
    assert(c.skip(lx.len() as int) =~= " found in raid"@);
    if text::ends_with(c, " items found in raid"@) {
        let t = c.skip(c.len() - 20);
        assert(lx.skip(lx.len() - 6) =~= " items"@) by {
            assert forall|i: int| 0 <= i < 6 implies lx.skip(lx.len() - 6)[i] == " items"@[i] by {
                assert(t[i] == c[c.len() - 20 + i]);
                assert(t[i] == " items found in raid"@[i]);
            }
        }
    }
    if text::ends_with(c, " items in raid"@) {
        lemma_end(c, " items in raid"@, 9);
        assert(c[c.len() - 9] == " found in raid"@[5]);
    }
    let d = lx + " items"@;
    assert(d.skip(lx.len() as int) =~= " items"@);
    assert(d[d.len() - 1] == " items"@[5]);
    if text::ends_with(d, " items found in raid"@) {
        lemma_end(d, " items found in raid"@, 1);
    }
    if text::ends_with(d, " items in raid"@) {
        lemma_end(d, " items in raid"@, 1);
    }
    if text::ends_with(d, " found in raid"@) {
        lemma_end(d, " found in raid"@, 1);
    }
    if text::ends_with(d, " in raid"@) {
        lemma_end(d, " in raid"@, 1);
    }
    let e = lx + " item"@;
    assert(e.skip(lx.len() as int) =~= " item"@);
    assert(e[e.len() - 1] == " item"@[4]);
    if text::ends_with(e, " items found in raid"@) {
        lemma_end(e, " items found in raid"@, 1);
    }
    if text::ends_with(e, " items in raid"@) {
        lemma_end(e, " items in raid"@, 1);
    }
    if text::ends_with(e, " found in raid"@) {
        lemma_end(e, " found in raid"@, 1);
    }
    if text::ends_with(e, " in raid"@) {
        lemma_end(e, " in raid"@, 1);
    }
    if text::ends_with(e, " items"@) {
        lemma_end(e, " items"@, 1);
    }
}

proof fn lemma_end_before(x: Seq<char>, e: Seq<char>, t: Seq<char>, whole: Seq<char>)
    requires
        whole == e + t,
        text::ends_with(x + t, whole),
    ensures
        text::ends_with(x, e),
{
    let s = x + t;
    let tail = s.skip(s.len() - whole.len());
    assert(x.len() >= e.len());
    assert forall|i: int| 0 <= i < e.len() implies x.skip(x.len() - e.len())[i] == e[i] by {
        assert(tail[i] == whole[i]);
        assert(tail[i] == s[s.len() - whole.len() + i]);
    }
    assert(x.skip(x.len() - e.len()) =~= e);
}

/// Without more before it the shortest qualifier of the raid goes alone.
pub proof fn law_raid_goes(x: Seq<char>, y: Seq<char>, lx: Seq<char>)
    requires
        lx.len() == x.len(),
        y.len() == 8,
        !text::ends_with(lx, " items"@),
        !text::ends_with(lx, " found"@),
        !text::ends_with(lx, " items found"@),
    ensures
        tasks::unqualified(x + y, lx + " in raid"@) == text::trimmed(x),
{
    reveal_strlit(" items found in raid");
    reveal_strlit(" items in raid");
    reveal_strlit(" found in raid");
    reveal_strlit(" in raid");
    reveal_strlit(" items found");
    reveal_strlit(" items");
    reveal_strlit(" found");
    let s = x + y;
    assert(s.take(x.len() as int) =~= x);
    let f = lx + " in raid"@;
    assert(f.skip(lx.len() as int) =~= " in raid"@);
    assert(" items found in raid"@ =~= " items found"@ + " in raid"@);
    assert(" items in raid"@ =~= " items"@ + " in raid"@);
    assert(" found in raid"@ =~= " found"@ + " in raid"@);
    if text::ends_with(f, " items found in raid"@) {
        lemma_end_before(lx, " items found"@, " in raid"@, " items found in raid"@);
    }
    if text::ends_with(f, " items in raid"@) {
        lemma_end_before(lx, " items"@, " in raid"@, " items in raid"@);
    }
    if text::ends_with(f, " found in raid"@) {
        lemma_end_before(lx, " found"@, " in raid"@, " found in raid"@);
    }
}

/// An item phrase that ends in no qualifier keeps its words: one that ends in
/// neither of their last letters.
pub proof fn law_other_phrases_stay(s: Seq<char>, lower: Seq<char>)
    requires
        lower.len() == 0 || lower.last() != 'd' && lower.last() != 's' && lower.last() != 'm',
    ensures
        tasks::unqualified(s, lower) == text::trimmed(s),
{
    reveal_strlit(" items found in raid");
    reveal_strlit(" items in raid");
    reveal_strlit(" found in raid");
    reveal_strlit(" in raid");
    reveal_strlit(" items");
    reveal_strlit(" item");
    if text::ends_with(lower, " items found in raid"@) {
        lemma_end(lower, " items found in raid"@, 1);
    }
    if text::ends_with(lower, " items in raid"@) {
        lemma_end(lower, " items in raid"@, 1);
    }
    if text::ends_with(lower, " found in raid"@) {
        lemma_end(lower, " found in raid"@, 1);
    }
    if text::ends_with(lower, " in raid"@) {
        lemma_end(lower, " in raid"@, 1);
    }
    if text::ends_with(lower, " items"@) {
        lemma_end(lower, " items"@, 1);
    }
    if text::ends_with(lower, " item"@) {
        lemma_end(lower, " item"@, 1);
    }
    assert(s.take(s.len() as int) =~= s);
}

/// An item phrase loses its quotes before its qualifier is looked for.
pub proof fn law_phrases_are_cleaned(raw: Seq<char>, s: Seq<char>)
    requires
        s == text::stripped_of(text::trimmed(raw), '\''),
    ensures
        tasks::cleaned(raw) == tasks::unqualified(s, text::lowercase(s)),
{
}

proof fn lemma_holds_between(a: Seq<char>, part: Seq<char>, b: Seq<char>)
    ensures
        text::holds(a + part + b, part),
{
    let s = a + part + b;
    let at = a.len() as int;
    assert(s.subrange(at, at + part.len()) =~= part);
    assert(text::holds_at(s, part, at));
}

/// An objective speaks of handing something in where it says to turn it in, to
/// submit, deliver, hand over or provide it, anywhere in its text.
pub proof fn law_speaking_of_submission(a: Seq<char>, b: Seq<char>)
    ensures
        tasks::speaks_of_submission(a + "turn in"@ + b),
        tasks::speaks_of_submission(a + "submit"@ + b),
        tasks::speaks_of_submission(a + "deliver"@ + b),
        tasks::speaks_of_submission(a + "hand over"@ + b),
        tasks::speaks_of_submission(a + "provide"@ + b),
{
    lemma_holds_between(a, "turn in"@, b);
    lemma_holds_between(a, "submit"@, b);
    lemma_holds_between(a, "deliver"@, b);
    lemma_holds_between(a, "hand over"@, b);
    lemma_holds_between(a, "provide"@, b);
}

/// A text that has none of the letters u, e and o speaks of no such thing.
pub proof fn law_not_speaking_of_submission(lower: Seq<char>)
    requires
        forall|i: int|
            0 <= i < lower.len() ==> #[trigger] lower[i] != 'u' && lower[i] != 'e' && lower[i] != 'o',
    ensures
        !tasks::speaks_of_submission(lower),
{
    reveal_strlit("turn in");
    reveal_strlit("submit");
    reveal_strlit("deliver");
    reveal_strlit("hand over");
    reveal_strlit("provide");
    lemma_lacks(lower, "turn in"@, 1);
    lemma_lacks(lower, "submit"@, 1);
    lemma_lacks(lower, "deliver"@, 1);
    lemma_lacks(lower, "hand over"@, 5);
    lemma_lacks(lower, "provide"@, 2);
}

proof fn lemma_lacks(s: Seq<char>, part: Seq<char>, k: int)
    requires
        0 <= k < part.len(),
        forall|i: int| 0 <= i < s.len() ==> #[trigger] s[i] != part[k],
    ensures
        !text::holds(s, part),
{
    if text::holds(s, part) {
        let at = choose|at: int| text::holds_at(s, part, at);
        assert(s.subrange(at, at + part.len())[k] == s[at + k]);
    }
}

} // verus!
