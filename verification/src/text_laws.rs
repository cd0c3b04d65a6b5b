//! What texts are compared, cut and joined to.

use crate::text;
use vstd::prelude::*;
use vstd::seq_lib::*;

verus! {

/// A text comes before every longer one that starts with it, and of two texts
/// that differ the one with the smaller character where they first do comes
/// first.
pub proof fn law_text_order(p: Seq<char>, a: Seq<char>, b: Seq<char>)
    ensures
        b.len() > 0 ==> text::text_lt(p, p + b),
        !text::text_lt(p + b, p),
        a.len() > 0 && b.len() > 0 && a[0] < b[0] ==> text::text_lt(p + a, p + b)
            && !text::text_lt(p + b, p + a),
    decreases p.len(),
{
    if p.len() > 0 {
        let rest = p.drop_first();
        law_text_order(rest, a, b);
        assert((p + b).drop_first() =~= rest + b);
        assert((p + a).drop_first() =~= rest + a);
    } else {
        assert(p + a =~= a);
        assert(p + b =~= b);
    }
}

/// What is cut off a text is white space at its ends, and what is left neither
/// starts nor ends with any.
pub proof fn law_trimmed(s: Seq<char>)
    ensures
        exists|i: int, j: int|
            0 <= i <= j <= s.len() && text::trimmed(s) == #[trigger] s.subrange(i, j) && (forall|
                k: int,
            |
                0 <= k < i || j <= k < s.len() ==> text::is_space(#[trigger] s[k])),
        text::trimmed(s).len() > 0 ==> !text::is_space(text::trimmed(s)[0]) && !text::is_space(
            text::trimmed(s).last(),
        ),
{
    let i = lemma_front(s);
    let t = s.skip(i);
    let n = lemma_back(t);
    let j = i + n;
    assert(t.take(n) =~= s.subrange(i, j));
    assert forall|k: int| 0 <= k < i || j <= k < s.len() implies text::is_space(
        #[trigger] s[k],
    ) by {
        if j <= k {
            assert(t[k - i] == s[k]);
        }
    }
    if n > 0 {
        assert(text::trimmed(s)[0] == t[0]);
    }
}

proof fn lemma_front(s: Seq<char>) -> (i: int)
    ensures
        0 <= i <= s.len(),
        text::trimmed_front(s) == s.skip(i),
        forall|k: int| 0 <= k < i ==> text::is_space(#[trigger] s[k]),
        i < s.len() ==> !text::is_space(s[i]),
    decreases s.len(),
{
    if s.len() > 0 && text::is_space(s[0]) {
        let i = lemma_front(s.drop_first());
        assert(s.drop_first().skip(i) =~= s.skip(i + 1));
        assert forall|k: int| 0 <= k < i + 1 implies text::is_space(#[trigger] s[k]) by {
            if k > 0 {
                assert(s.drop_first()[k - 1] == s[k]);
            }
        }
        i + 1
    } else {
        assert(s.skip(0) =~= s);
        0
    }
}

proof fn lemma_back(s: Seq<char>) -> (n: int)
    ensures
        0 <= n <= s.len(),
        text::trimmed_back(s) == s.take(n),
        forall|k: int| n <= k < s.len() ==> text::is_space(#[trigger] s[k]),
        n > 0 ==> !text::is_space(s[n - 1]),
    decreases s.len(),
{
    if s.len() > 0 && text::is_space(s.last()) {
        let n = lemma_back(s.drop_last());
        assert(s.drop_last().take(n) =~= s.take(n));
        assert forall|k: int| n <= k < s.len() implies text::is_space(#[trigger] s[k]) by {
            if k < s.len() - 1 {
                assert(s.drop_last()[k] == s[k]);
            }
        }
        n
    } else {
        assert(s.take(s.len() as int) =~= s);
        s.len() as int
    }
}

/// What is stripped off a text is the one character at its ends, and what is
/// left neither starts nor ends with it.
pub proof fn law_stripped(s: Seq<char>, c: char)
    ensures
        exists|i: int, j: int|
            0 <= i <= j <= s.len() && text::stripped_of(s, c) == #[trigger] s.subrange(i, j) && (
            forall|k: int| 0 <= k < i || j <= k < s.len() ==> #[trigger] s[k] == c),
        text::stripped_of(s, c).len() > 0 ==> text::stripped_of(s, c)[0] != c && text::stripped_of(
            s,
            c,
        ).last() != c,
{
    let p = lemma_stripped(s, c);
    assert(text::stripped_of(s, c) == s.subrange(p.0, p.1));
}

proof fn lemma_stripped(s: Seq<char>, c: char) -> (p: (int, int))
    ensures
        0 <= p.0 <= p.1 <= s.len(),
        text::stripped_of(s, c) == s.subrange(p.0, p.1),
        forall|k: int| 0 <= k < p.0 || p.1 <= k < s.len() ==> #[trigger] s[k] == c,
        p.0 < p.1 ==> s[p.0] != c && s[p.1 - 1] != c,
    decreases s.len(),
{
    if s.len() > 0 && s[0] == c {
        let t = s.drop_first();
        let (i, j) = lemma_stripped(t, c);
        assert(s.subrange(i + 1, j + 1) =~= t.subrange(i, j));
        assert forall|k: int| 0 <= k < i + 1 || j + 1 <= k < s.len() implies #[trigger] s[k]
            == c by {
            if k > 0 {
                assert(t[k - 1] == s[k]);
            }
        }
        (i + 1, j + 1)
    } else if s.len() > 0 && s.last() == c {
        let t = s.drop_last();
        let (i, j) = lemma_stripped(t, c);
        assert(s.subrange(i, j) =~= t.subrange(i, j));
        assert forall|k: int| 0 <= k < i || j <= k < s.len() implies #[trigger] s[k] == c by {
            if k < t.len() {
                assert(t[k] == s[k]);
            }
        }
        (i, j)
    } else {
        assert(s.subrange(0, s.len() as int) =~= s);
        (0, s.len() as int)
    }
}

/// Texts that are joined stand one behind the other with the separator between
/// each two.
pub proof fn law_joined(a: Seq<Seq<char>>, b: Seq<Seq<char>>, t: Seq<char>, sep: Seq<char>)
    ensures
        text::joined(seq![t], sep) == t,
        a.len() > 0 && b.len() > 0 ==> text::joined(a + b, sep) == text::joined(a, sep) + sep
            + text::joined(b, sep),
        a.len() == 0 ==> text::joined(a, sep).len() == 0,
    decreases b.len(),
{
    if a.len() > 0 && b.len() > 0 {
        let init = b.drop_last();
        assert((a + b).drop_last() =~= a + init);
        assert((a + b).last() == b.last());
        if b.len() == 1 {
            assert(a + init =~= a);
        } else {
            law_joined(a, init, t, sep);
            assert(text::joined(a, sep) + sep + text::joined(init, sep) + sep + b.last()
                =~= text::joined(a, sep) + sep + (text::joined(init, sep) + sep + b.last()));
        }
    }
}

/// The pieces of a text, joined again, are the text, and none of them holds
/// the character at which it was cut.
pub proof fn law_split(s: Seq<char>, sep: char)
    ensures
        text::split_at_char(s, sep).len() > 0,
        text::joined(text::split_at_char(s, sep), seq![sep]) == s,
        forall|i: int|
            0 <= i < text::split_at_char(s, sep).len() ==> !(#[trigger] text::split_at_char(
                s,
                sep,
            )[i]).contains(sep),
    decreases s.len(),
{
    let parts = text::split_at_char(s, sep);
    if s.len() == 0 {
        assert(parts[0] =~= s);
    } else {
        let init = s.drop_last();
        law_split(init, sep);
        let before = text::split_at_char(init, sep);
        if s.last() == sep {
            assert(parts.drop_last() =~= before);
            assert(text::joined(parts, seq![sep]) =~= s);
        } else {
            let n = before.len() - 1;
            let piece = before.last().push(s.last());
            assert(parts.drop_last() =~= before.drop_last());
            assert(parts.last() == piece);
            if before.len() == 1 {
                assert(text::joined(parts, seq![sep]) =~= s);
            } else {
                let head = text::joined(before.drop_last(), seq![sep]) + seq![sep];
                assert(text::joined(before, seq![sep]) == head + before.last());
                assert(text::joined(parts, seq![sep]) == head + piece);
                assert(head + piece =~= (head + before.last()).push(s.last()));
                assert(init.push(s.last()) =~= s);
            }
            assert forall|i: int| 0 <= i < parts.len() implies !(#[trigger] parts[i]).contains(
                sep,
            ) by {
                if i < n {
                    assert(parts[i] == before[i]);
                } else {
                    crate::ids::lemma_contains_push(before.last(), s.last(), sep);
                    assert(before[n] == before.last());
                }
            }
        }
    }
}

/// Pieces that do not hold the separator are what a text is cut into that they
/// are joined to with it.
pub proof fn law_split_pieces(parts: Seq<Seq<char>>, sep: char)
    requires
        parts.len() > 0,
        forall|i: int| 0 <= i < parts.len() ==> !(#[trigger] parts[i]).contains(sep),
    ensures
        text::split_at_char(text::joined(parts, seq![sep]), sep) == parts,
    decreases parts.len(),
{
    let last = parts.last();
    assert(!parts[parts.len() - 1].contains(sep));
    if parts.len() == 1 {
        lemma_split_after(Seq::empty(), last, sep);
        assert(Seq::<char>::empty() + last =~= last);
        assert(text::split_at_char(Seq::empty(), sep) =~= seq![Seq::<char>::empty()]);
        assert(text::split_at_char(last, sep) =~= parts);
    } else {
        let init = parts.drop_last();
        assert forall|i: int| 0 <= i < init.len() implies !(#[trigger] init[i]).contains(sep) by {
            assert(init[i] == parts[i]);
        }
        law_split_pieces(init, sep);
        let head = text::joined(init, seq![sep]).push(sep);
        assert(head.drop_last() =~= text::joined(init, seq![sep]));
        assert(text::split_at_char(head, sep) =~= init.push(Seq::empty()));
        lemma_split_after(head, last, sep);
        assert(text::joined(parts, seq![sep]) =~= head + last);
        assert(text::split_at_char(head + last, sep) =~= parts);
    }
}

proof fn lemma_split_after(head: Seq<char>, word: Seq<char>, sep: char)
    requires
        !word.contains(sep),
    ensures
        ({
            let before = text::split_at_char(head, sep);
            &&& before.len() > 0
            &&& text::split_at_char(head + word, sep) == before.update(
                before.len() - 1,
                before.last() + word,
            )
        }),
    decreases word.len(),
{
    law_split(head, sep);
    let before = text::split_at_char(head, sep);
    if word.len() == 0 {
        assert(head + word =~= head);
        assert(before.last() + word =~= before.last());
        assert(before.update(before.len() - 1, before.last()) =~= before);
    } else {
        let init = word.drop_last();
        assert(!init.contains(sep)) by {
            if init.contains(sep) {
                let k = choose|k: int| 0 <= k < init.len() && init[k] == sep;
                assert(word[k] == sep);
            }
        }
        assert(word.last() != sep) by {
            assert(word.contains(word[word.len() - 1]));
        }
        lemma_split_after(head, init, sep);
        assert((head + word).drop_last() =~= head + init);
        let mid = text::split_at_char(head + init, sep);
        assert((before.last() + init).push(word.last()) =~= before.last() + word);
        assert(mid.update(mid.len() - 1, mid.last().push(word.last())) =~= before.update(
            before.len() - 1,
            before.last() + word,
        ));
    }
}

/// White space parts words: what stands on both sides of it is parted, and a
/// text without any is one word.
pub proof fn law_words_are_parted(a: Seq<char>, sp: char, b: Seq<char>, w: Seq<char>)
    requires
        text::is_space(sp),
    ensures
        text::space_separated(a.push(sp) + b) == text::space_separated(a) + text::space_separated(b),
        w.len() > 0 && (forall|i: int| 0 <= i < w.len() ==> !text::is_space(#[trigger] w[i]))
            ==> text::space_separated(w) == seq![w],
    decreases b.len() + w.len(),
{
    if b.len() == 0 {
        assert(a.push(sp) + b =~= a.push(sp));
        assert(a.push(sp).drop_last() =~= a);
        assert(text::space_separated(a) + text::space_separated(b) =~= text::space_separated(a));
    } else {
        let init = b.drop_last();
        law_words_are_parted(a, sp, init, Seq::empty());
        let s = a.push(sp) + b;
        assert(s.drop_last() =~= a.push(sp) + init);
        assert(s.last() == b.last());
        let x = text::space_separated(a);
        let y = text::space_separated(init);
        if text::is_space(b.last()) {
        } else if init.len() == 0 || text::is_space(init.last()) {
            if init.len() == 0 {
                assert(s.drop_last().last() == sp);
            } else {
                assert(s.drop_last().last() == init.last());
            }
            assert((x + y).push(seq![b.last()]) =~= x + y.push(seq![b.last()]));
        } else {
            assert(s.drop_last().last() == init.last());
            lemma_word_at_end(init);
            assert((x + y).drop_last().push((x + y).last().push(b.last())) =~= x
                + y.drop_last().push(y.last().push(b.last())));
        }
    }
    if w.len() > 0 && (forall|i: int| 0 <= i < w.len() ==> !text::is_space(#[trigger] w[i])) {
        let init = w.drop_last();
        assert(!text::is_space(w[w.len() - 1]));
        if init.len() > 0 {
            assert forall|i: int| 0 <= i < init.len() implies !text::is_space(
                #[trigger] init[i],
            ) by {
                assert(init[i] == w[i]);
            }
            law_words_are_parted(Seq::empty(), sp, Seq::empty(), init);
            assert(!text::is_space(init[init.len() - 1]));
            assert(text::space_separated(w) =~= seq![w]) by {
                assert(init.push(w.last()) =~= w);
            }
        } else {
            assert(w =~= seq![w.last()]);
            assert(text::space_separated(init) =~= Seq::<Seq<char>>::empty());
            assert(text::space_separated(w) =~= seq![w]);
        }
    }
}

proof fn lemma_word_at_end(s: Seq<char>)
    requires
        s.len() > 0,
        !text::is_space(s.last()),
    ensures
        text::space_separated(s).len() > 0,
{
}

/// What is found of a part in a text is its first place from there on.
pub proof fn law_first_place(s: Seq<char>, part: Seq<char>, from: int)
    requires
        0 <= from,
    ensures
        match text::first_at(s, part, from) {
            Some(i) => from <= i && i + part.len() <= s.len() && s.subrange(i, i + part.len()) == part
                && forall|j: int|
                from <= j < i ==> #[trigger] s.subrange(j, j + part.len()) != part,
            None => forall|j: int|
                from <= j && j + part.len() <= s.len() ==> #[trigger] s.subrange(j, j + part.len())
                    != part,
        },
    decreases s.len() - part.len() - from + 1,
{
    if from + part.len() <= s.len() && !text::holds_at(s, part, from) {
        law_first_place(s, part, from + 1);
    }
}

/// A number is written with digits alone, without a nought before it, and
/// reads back as itself, with a plus before it too; without a digit, or with
/// anything else among them, nothing is read.
pub proof fn law_numbers(n: nat, max: nat, s: Seq<char>)
    ensures
        n <= max ==> text::parsed_uint(text::decimal(n), max) == Some(n),
        n <= max ==> text::parsed_uint(seq!['+'] + text::decimal(n), max) == Some(n),
        n > 0 ==> text::decimal(n)[0] != '0',
        n > max ==> text::parsed_uint(text::decimal(n), max) is None,
        text::parsed_uint(Seq::empty(), max) is None,
        (exists|i: int| 1 <= i < s.len() && !text::is_digit(#[trigger] s[i])) ==> text::parsed_uint(
            s,
            max,
        ) is None,
        s.len() > 0 && s[0] != '+' && !text::is_digit(s[0]) ==> text::parsed_uint(s, max) is None,
{
    text::lemma_decimal_reads_back(n, n);
    text::lemma_decimal_digits(n);
    assert(text::is_digit(text::decimal(n)[0]));
    let p = seq!['+'] + text::decimal(n);
    assert(p.drop_first() =~= text::decimal(n));
    lemma_no_leading_nought(n);
    if exists|i: int| 1 <= i < s.len() && !text::is_digit(#[trigger] s[i]) {
        let i = choose|i: int| 1 <= i < s.len() && !text::is_digit(#[trigger] s[i]);
        assert(s.drop_first()[i - 1] == s[i]);
    }
}

proof fn lemma_no_leading_nought(n: nat)
    ensures
        n > 0 ==> text::decimal(n)[0] != '0',
    decreases n,
{
    if n >= 10 {
        lemma_no_leading_nought(n / 10);
        text::lemma_decimal_digits(n / 10);
        assert(text::decimal(n)[0] == text::decimal(n / 10)[0]);
    }
}

/// Small letters and capitals change into each other, and nothing else
/// changes.
pub proof fn law_letters(c: char)
    ensures
        'a' <= c <= 'z' ==> 'A' <= text::ascii_upper(c) <= 'Z' && text::ascii_lower(
            text::ascii_upper(c),
        ) == c && text::ascii_lower(c) == c,
        'A' <= c <= 'Z' ==> 'a' <= text::ascii_lower(c) <= 'z' && text::ascii_upper(
            text::ascii_lower(c),
        ) == c && text::ascii_upper(c) == c,
        !('a' <= c <= 'z') && !('A' <= c <= 'Z') ==> text::ascii_lower(c) == c && text::ascii_upper(
            c,
        ) == c,
{
}

/// A number reads back as itself where it fits, and with a minus before it as
/// its negative.
pub proof fn law_signed_numbers(n: nat, min: int, max: int)
    ensures
        min <= n <= max ==> text::parsed_int(text::decimal(n), min, max) == Some(n as int),
        min <= -n <= max ==> text::parsed_int(seq!['-'] + text::decimal(n), min, max) == Some(
            -(n as int),
        ),
        n > max ==> text::parsed_int(text::decimal(n), min, max) is None,
        -n < min ==> text::parsed_int(seq!['-'] + text::decimal(n), min, max) is None,
        text::parsed_int(Seq::empty(), min, max) is None,
        text::parsed_int(seq!['-'], min, max) is None,
{
    text::lemma_decimal_reads_back(n, n);
    text::lemma_decimal_digits(n);
    assert(text::is_digit(text::decimal(n)[0]));
    assert((seq!['-'] + text::decimal(n)).drop_first() =~= text::decimal(n));
    assert(seq!['-'].drop_first() =~= Seq::<char>::empty());
}

} // verus!
