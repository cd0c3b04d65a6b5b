//! Strings as sequences of characters: taking them apart, putting them
//! together, ordering them, and writing and reading decimal numbers.

use crate::ids;
use vstd::prelude::*;
use vstd::string::*;
use vstd::utf8::*;

verus! {

/// `String::push` appends one character to the end of the string.
pub assume_specification[ String::push ](s: &mut String, ch: char)
    ensures
        final(s)@ == old(s)@.push(ch),
;

/// The characters of `s`, in order.
pub fn chars_of(s: &str) -> (out: Vec<char>)
    ensures
        out@ == s@,
{
    let mut out: Vec<char> = Vec::new();
    for c in it: s.chars()
        invariant
            it.seq() == s@,
            out@ == s@.take(it.index()),
    {
        out.push(c);
        assert(s@.take(it.index()).push(c) =~= s@.take(it.index() + 1));
    }
    assert(s@.take(s@.len() as int) =~= s@);
    out
}

/// The string made of `chars[from..to]`.
pub fn string_from(chars: &[char], from: usize, to: usize) -> (out: String)
    requires
        from <= to <= chars@.len(),
    ensures
        out@ == chars@.subrange(from as int, to as int),
{
    let mut out: String = String::new();
    let mut i: usize = from;
    while i < to
        invariant
            from <= i <= to <= chars@.len(),
            out@ == chars@.subrange(from as int, i as int),
        decreases to - i,
    {
        out.push(chars[i]);
        assert(chars@.subrange(from as int, i as int).push(chars@[i as int]) =~= chars@.subrange(
            from as int,
            i + 1,
        ));
        i += 1;
    }
    out
}

/// Whether `a` comes strictly before `b` in the order of their characters'
/// code points, which is the order of `str`.
pub open spec fn text_lt(a: Seq<char>, b: Seq<char>) -> bool
    decreases a.len(),
{
    if b.len() == 0 {
        false
    } else if a.len() == 0 {
        true
    } else if a[0] != b[0] {
        a[0] < b[0]
    } else {
        text_lt(a.drop_first(), b.drop_first())
    }
}

proof fn lemma_text_lt_at(a: Seq<char>, b: Seq<char>, n: int)
    requires
        0 <= n <= a.len(),
        n <= b.len(),
        a.take(n) == b.take(n),
    ensures
        text_lt(a, b) == text_lt(a.skip(n), b.skip(n)),
    decreases n,
{
    if n == 0 {
        assert(a.skip(0) =~= a);
        assert(b.skip(0) =~= b);
    } else {
        assert(a.take(n)[0] == a[0]);
        assert(b.take(n)[0] == b[0]);
        let a1 = a.drop_first();
        let b1 = b.drop_first();
        assert forall|i: int| 0 <= i < n - 1 implies a1[i] == b1[i] by {
            assert(a.take(n)[i + 1] == a[i + 1]);
            assert(b.take(n)[i + 1] == b[i + 1]);
        }
        assert(a1.take(n - 1) =~= b1.take(n - 1));
        lemma_text_lt_at(a1, b1, n - 1);
        assert(a1.skip(n - 1) =~= a.skip(n));
        assert(b1.skip(n - 1) =~= b.skip(n));
    }
}

/// Whether `a` is ordered strictly before `b`.
pub fn text_before(a: &str, b: &str) -> (r: bool)
    ensures
        r == text_lt(a@, b@),
{
    let x: Vec<char> = chars_of(a);
    let y: Vec<char> = chars_of(b);
    let mut i: usize = 0;
    while i < x.len() && i < y.len() && x[i] == y[i]
        invariant
            i <= x@.len(),
            i <= y@.len(),
            x@ == a@,
            y@ == b@,
            a@.take(i as int) == b@.take(i as int),
        decreases x@.len() - i,
    {
        assert(a@.take(i + 1) =~= a@.take(i as int).push(x@[i as int]));
        assert(b@.take(i + 1) =~= b@.take(i as int).push(y@[i as int]));
        i += 1;
    }
    proof {
        lemma_text_lt_at(a@, b@, i as int);
    }
    if i >= y.len() {
        false
    } else if i >= x.len() {
        true
    } else {
        x[i] < y[i]
    }
}

/// The order of strings is transitive.
pub proof fn lemma_text_lt_trans(a: Seq<char>, b: Seq<char>, c: Seq<char>)
    requires
        text_lt(a, b),
        text_lt(b, c),
    ensures
        text_lt(a, c),
    decreases a.len(),
{
    if a.len() > 0 && a[0] == b[0] && b[0] == c[0] {
        lemma_text_lt_trans(a.drop_first(), b.drop_first(), c.drop_first());
    }
}

/// No string is ordered before itself.
pub proof fn lemma_text_lt_irreflexive(a: Seq<char>)
    ensures
        !text_lt(a, a),
    decreases a.len(),
{
    if a.len() > 0 {
        lemma_text_lt_irreflexive(a.drop_first());
    }
}

/// Of two strings one is ordered before the other, or they are equal.
pub proof fn lemma_text_lt_total(a: Seq<char>, b: Seq<char>)
    ensures
        text_lt(a, b) || text_lt(b, a) || a == b,
    decreases a.len(),
{
    if a.len() > 0 && b.len() > 0 && a[0] == b[0] {
        lemma_text_lt_total(a.drop_first(), b.drop_first());
        if a.drop_first() == b.drop_first() {
            assert(a.drop_first().len() == b.drop_first().len());
            assert(a.len() == b.len());
            assert forall|i: int| 0 <= i < a.len() implies a[i] == b[i] by {
                if i > 0 {
                    assert(a.drop_first()[i - 1] == a[i]);
                    assert(b.drop_first()[i - 1] == b[i]);
                }
            }
            assert(a =~= b);
        }
    } else if a.len() == 0 && b.len() == 0 {
        assert(a =~= b);
    }
}

/// The character that writes the digit `d`.
pub open spec fn digit_char(d: nat) -> char {
    (('0' as u32) + d) as char
}

/// `n` in decimal, without leading zeros.
pub open spec fn decimal(n: nat) -> Seq<char>
    decreases n,
{
    if n < 10 {
        seq![digit_char(n)]
    } else {
        decimal(n / 10).push(digit_char(n % 10))
    }
}

/// The character that writes the digit `d`.
pub fn to_digit_char(d: u8) -> (c: char)
    requires
        d < 10,
    ensures
        c == digit_char(d as nat),
{
    (48 + d) as char
}

/// Appends `n` in decimal to `out`.
pub fn push_decimal(out: &mut String, n: u64)
    ensures
        final(out)@ == old(out)@ + decimal(n as nat),
    decreases n,
{
    if n >= 10 {
        push_decimal(out, n / 10);
    }
    out.push(to_digit_char((n % 10) as u8));
    assert(out@ =~= old(out)@ + decimal(n as nat));
}

/// `n` in decimal.
pub fn decimal_string(n: u64) -> (out: String)
    ensures
        out@ == decimal(n as nat),
{
    let mut out: String = String::new();
    push_decimal(&mut out, n);
    assert(out@ =~= decimal(n as nat));
    out
}

/// A number is written with at least one digit, and with digits alone.
pub proof fn lemma_decimal_digits(n: nat)
    ensures
        decimal(n).len() > 0,
        forall|i: int| 0 <= i < decimal(n).len() ==> is_digit(#[trigger] decimal(n)[i]),
    decreases n,
{
    if n >= 10 {
        lemma_decimal_digits(n / 10);
    }
}

/// Whether `c` is one of `0` to `9`.
pub open spec fn is_digit(c: char) -> bool {
    '0' <= c <= '9'
}

/// The number that the digits of `s` write, most significant first.
pub open spec fn digits_value(s: Seq<char>) -> nat
    decreases s.len(),
{
    if s.len() == 0 {
        0
    } else {
        digits_value(s.drop_last()) * 10 + ((s.last() as u32) - ('0' as u32)) as nat
    }
}

/// Whether `s` holds digits alone.
pub open spec fn all_digits(s: Seq<char>) -> bool {
    forall|i: int| 0 <= i < s.len() ==> is_digit(#[trigger] s[i])
}

/// What reading `s` as an unsigned number of at most `max` gives: an optional
/// plus sign and at least one digit.
pub open spec fn parsed_uint(s: Seq<char>, max: nat) -> Option<nat> {
    let body = if s.len() > 0 && s[0] == '+' {
        s.drop_first()
    } else {
        s
    };
    if body.len() > 0 && all_digits(body) && digits_value(body) <= max {
        Some(digits_value(body))
    } else {
        None
    }
}

/// Reading a number back from its decimal form gives the number.
pub proof fn lemma_decimal_reads_back(n: nat, max: nat)
    requires
        n <= max,
    ensures
        digits_value(decimal(n)) == n,
        parsed_uint(decimal(n), max) == Some(n),
{
    lemma_decimal_value(n);
    lemma_decimal_digits(n);
    assert(is_digit(decimal(n)[0]));
}

proof fn lemma_decimal_value(n: nat)
    ensures
        digits_value(decimal(n)) == n,
    decreases n,
{
    if n < 10 {
        assert(decimal(n).drop_last() =~= Seq::<char>::empty());
        assert(digits_value(decimal(n).drop_last()) == 0);
    } else {
        lemma_decimal_value(n / 10);
        assert(decimal(n).drop_last() =~= decimal(n / 10));
    }
}

proof fn lemma_digits_value_grows(s: Seq<char>, n: int)
    requires
        0 <= n <= s.len(),
        all_digits(s),
    ensures
        digits_value(s.take(n)) <= digits_value(s),
    decreases s.len() - n,
{
    if n < s.len() {
        lemma_digits_value_grows(s, n + 1);
        assert(s.take(n + 1).drop_last() =~= s.take(n));
        assert(is_digit(s[n]));
        assert(s.take(n + 1).last() == s[n]);
    } else {
        assert(s.take(n) =~= s);
    }
}

/// Reads `chars` as an unsigned number of at most `max`.
pub fn parse_uint(chars: &[char], max: u64) -> (r: Option<u64>)
    ensures
        match r {
            Some(v) => parsed_uint(chars@, max as nat) == Some(v as nat),
            None => parsed_uint(chars@, max as nat) is None,
        },
{
    let start: usize = if chars.len() > 0 && chars[0] == '+' {
        1
    } else {
        0
    };
    let ghost body = if chars@.len() > 0 && chars@[0] == '+' {
        chars@.drop_first()
    } else {
        chars@
    };
    assert(body =~= chars@.skip(start as int));
    if start >= chars.len() {
        return None;
    }
    let mut value: u64 = 0;
    let mut i: usize = start;
    while i < chars.len()
        invariant
            start <= 1,
            start <= i <= chars@.len(),
            body == chars@.skip(start as int),
            body == if chars@.len() > 0 && chars@[0] == '+' {
                chars@.drop_first()
            } else {
                chars@
            },
            all_digits(body.take(i - start)),
            value == digits_value(body.take(i - start)),
            value <= max,
        decreases chars@.len() - i,
    {
        let c: char = chars[i];
        let ghost k: int = i - start;
        assert(body[k] == c);
        if c < '0' || c > '9' {
            assert(!is_digit(body[k]));
            return None;
        }
        let d: u64 = (c as u32 - '0' as u32) as u64;
        assert(body.take(k + 1).drop_last() =~= body.take(k));
        assert(body.take(k + 1).last() == c);
        assert(digits_value(body.take(k + 1)) == value * 10 + d);
        if value > u64::MAX / 10 || value * 10 > u64::MAX - d || value * 10 + d > max {
            proof {
                if all_digits(body) {
                    lemma_digits_value_grows(body, k + 1);
                }
            }
            return None;
        }
        value = value * 10 + d;
        assert forall|j: int| 0 <= j < k + 1 implies is_digit(#[trigger] body.take(k + 1)[j]) by {
            if j < k {
                assert(is_digit(body.take(k)[j]));
            }
        }
        i += 1;
    }
    assert(body.take(body.len() as int) =~= body);
    Some(value)
}

/// The parts one after the other, with `sep` between each two.
pub open spec fn joined(parts: Seq<Seq<char>>, sep: Seq<char>) -> Seq<char>
    decreases parts.len(),
{
    if parts.len() == 0 {
        Seq::empty()
    } else if parts.len() == 1 {
        parts[0]
    } else {
        joined(parts.drop_last(), sep) + sep + parts.last()
    }
}

/// Joins `parts` with `sep` between each two.
pub fn join(parts: &Vec<String>, sep: &str) -> (out: String)
    ensures
        out@ == joined(ids::texts(parts@), sep@),
{
    let ghost all = ids::texts(parts@);
    let mut out: String = String::new();
    let mut i: usize = 0;
    assert(joined(all.take(0), sep@) =~= Seq::<char>::empty());
    while i < parts.len()
        invariant
            i <= parts@.len(),
            all == ids::texts(parts@),
            out@ == joined(all.take(i as int), sep@),
        decreases parts@.len() - i,
    {
        if i > 0 {
            out.append(sep);
        }
        out.append(parts[i].as_str());
        proof {
            assert(all.take(i + 1).drop_last() =~= all.take(i as int));
            assert(all.take(i + 1).last() == all[i as int]);
            if i == 0 {
                assert(out@ =~= all[0]);
            }
        }
        i += 1;
    }
    assert(all.take(all.len() as int) =~= all);
    out
}

/// The pieces of `s` between the occurrences of `sep`: one more than there
/// are occurrences.
pub open spec fn split_at_char(s: Seq<char>, sep: char) -> Seq<Seq<char>>
    decreases s.len(),
{
    if s.len() == 0 {
        seq![Seq::empty()]
    } else {
        let before = split_at_char(s.drop_last(), sep);
        if s.last() == sep {
            before.push(Seq::empty())
        } else {
            before.update(before.len() - 1, before.last().push(s.last()))
        }
    }
}

proof fn lemma_split_nonempty(s: Seq<char>, sep: char)
    ensures
        split_at_char(s, sep).len() > 0,
    decreases s.len(),
{
    if s.len() > 0 {
        lemma_split_nonempty(s.drop_last(), sep);
    }
}

/// The characters of each piece.
pub open spec fn pieces(parts: Seq<Vec<char>>) -> Seq<Seq<char>> {
    Seq::new(parts.len(), |i: int| parts[i]@)
}

/// Splits `chars` at every `sep`.
pub fn split_chars(chars: &[char], sep: char) -> (out: Vec<Vec<char>>)
    ensures
        pieces(out@) == split_at_char(chars@, sep),
        out@.len() > 0,
{
    let mut out: Vec<Vec<char>> = Vec::new();
    let mut cur: Vec<char> = Vec::new();
    let mut i: usize = 0;
    assert(pieces(out@).push(cur@) =~= split_at_char(chars@.take(0), sep));
    while i < chars.len()
        invariant
            i <= chars@.len(),
            pieces(out@).push(cur@) == split_at_char(chars@.take(i as int), sep),
        decreases chars@.len() - i,
    {
        let c: char = chars[i];
        let ghost before = pieces(out@);
        let ghost was = cur@;
        assert(chars@.take(i + 1).drop_last() =~= chars@.take(i as int));
        assert(chars@.take(i + 1).last() == c);
        if c == sep {
            out.push(cur);
            cur = Vec::new();
            assert(pieces(out@) =~= before.push(was));
            assert(pieces(out@).push(cur@) =~= before.push(was).push(Seq::empty()));
        } else {
            cur.push(c);
            assert(before.push(cur@) =~= before.push(was).update(before.len() as int, was.push(c)));
        }
        i += 1;
    }
    assert(chars@.take(chars@.len() as int) =~= chars@);
    let ghost before = pieces(out@);
    out.push(cur);
    assert(pieces(out@) =~= before.push(cur@));
    out
}

/// The lower case of an ASCII letter; any other character stays.
pub open spec fn ascii_lower(c: char) -> char {
    if 'A' <= c <= 'Z' {
        ((c as u32) + 32) as char
    } else {
        c
    }
}

/// `s` with its ASCII letters in lower case.
pub open spec fn ascii_lowered(s: Seq<char>) -> Seq<char> {
    Seq::new(s.len(), |i: int| ascii_lower(s[i]))
}

/// What `str::to_lowercase` makes of a text.
pub uninterp spec fn lowercase(s: Seq<char>) -> Seq<char>;

/// `str::to_lowercase`. The result is a function of the text; of a text that
/// is all ASCII it is the text with its letters in lower case.
#[verifier::external_body]
pub(crate) fn to_lowercase(s: &str) -> (r: String)
    ensures
        r@ == lowercase(s@),
        is_ascii_chars(s@) ==> r@ == ascii_lowered(s@),
{
    s.to_lowercase()
}

/// Whether `s` ends with `end`.
pub open spec fn ends_with(s: Seq<char>, end: Seq<char>) -> bool {
    s.len() >= end.len() && s.skip(s.len() - end.len()) == end
}

/// Whether `s` holds `part` at position `at`.
pub open spec fn holds_at(s: Seq<char>, part: Seq<char>, at: int) -> bool {
    0 <= at <= s.len() - part.len() && s.subrange(at, at + part.len()) == part
}

/// Whether `s` holds `part` anywhere.
pub open spec fn holds(s: Seq<char>, part: Seq<char>) -> bool {
    exists|at: int| holds_at(s, part, at)
}

fn matches_at(s: &[char], part: &[char], at: usize) -> (r: bool)
    requires
        at + part@.len() <= s@.len(),
    ensures
        r == holds_at(s@, part@, at as int),
{
    let n: usize = s.len();
    let mut i: usize = 0;
    while i < part.len()
        invariant
            i <= part@.len(),
            n == s@.len(),
            at + part@.len() <= n,
            forall|j: int| 0 <= j < i ==> s@[at + j] == part@[j],
        decreases part@.len() - i,
    {
        if s[at + i] != part[i] {
            assert(s@.subrange(at as int, at + part@.len())[i as int] == s@[at + i]);
            return false;
        }
        i += 1;
    }
    assert(s@.subrange(at as int, at + part@.len()) =~= part@);
    true
}

/// Whether `s` holds `part` anywhere.
pub fn has_part(s: &[char], part: &[char]) -> (r: bool)
    ensures
        r == holds(s@, part@),
{
    if part.len() > s.len() {
        return false;
    }
    let last: usize = s.len() - part.len();
    let mut at: usize = 0;
    while at < last
        invariant
            last == s@.len() - part@.len(),
            at <= last,
            forall|j: int| 0 <= j < at ==> !holds_at(s@, part@, j),
        decreases last - at,
    {
        if matches_at(s, part, at) {
            return true;
        }
        at += 1;
    }
    matches_at(s, part, last)
}

/// Whether `s` ends with `end`.
pub fn has_end(s: &[char], end: &[char]) -> (r: bool)
    ensures
        r == ends_with(s@, end@),
{
    if s.len() < end.len() {
        return false;
    }
    let at: usize = s.len() - end.len();
    assert(s@.subrange(at as int, at + end@.len()) =~= s@.skip(at as int));
    matches_at(s, end, at)
}

/// Whether `c` has the Unicode property `White_Space`.
pub open spec fn is_space(c: char) -> bool {
    ||| '\u{9}' <= c <= '\u{d}'
    ||| c == ' '
    ||| c == '\u{85}'
    ||| c == '\u{a0}'
    ||| c == '\u{1680}'
    ||| '\u{2000}' <= c <= '\u{200a}'
    ||| c == '\u{2028}'
    ||| c == '\u{2029}'
    ||| c == '\u{202f}'
    ||| c == '\u{205f}'
    ||| c == '\u{3000}'
}

/// Whether `c` is white space.
pub fn is_white(c: char) -> (r: bool)
    ensures
        r == is_space(c),
{
    ('\u{9}' <= c && c <= '\u{d}') || c == ' ' || c == '\u{85}' || c == '\u{a0}' || c == '\u{1680}'
        || ('\u{2000}' <= c && c <= '\u{200a}') || c == '\u{2028}' || c == '\u{2029}' || c
        == '\u{202f}' || c == '\u{205f}' || c == '\u{3000}'
}

/// `s` without the white space at its front.
pub open spec fn trimmed_front(s: Seq<char>) -> Seq<char>
    decreases s.len(),
{
    if s.len() > 0 && is_space(s[0]) {
        trimmed_front(s.drop_first())
    } else {
        s
    }
}

/// `s` without the white space at its back.
pub open spec fn trimmed_back(s: Seq<char>) -> Seq<char>
    decreases s.len(),
{
    if s.len() > 0 && is_space(s.last()) {
        trimmed_back(s.drop_last())
    } else {
        s
    }
}

/// `s` without the white space at its two ends.
pub open spec fn trimmed(s: Seq<char>) -> Seq<char> {
    trimmed_back(trimmed_front(s))
}

/// Copies `chars[from..to]`.
pub fn copy_range(chars: &[char], from: usize, to: usize) -> (out: Vec<char>)
    requires
        from <= to <= chars@.len(),
    ensures
        out@ == chars@.subrange(from as int, to as int),
{
    let mut out: Vec<char> = Vec::new();
    let mut i: usize = from;
    while i < to
        invariant
            from <= i <= to <= chars@.len(),
            out@ == chars@.subrange(from as int, i as int),
        decreases to - i,
    {
        out.push(chars[i]);
        assert(chars@.subrange(from as int, i as int).push(chars@[i as int]) =~= chars@.subrange(
            from as int,
            i + 1,
        ));
        i += 1;
    }
    out
}

/// Takes the white space off the two ends of `chars`.
pub fn trim_chars(chars: &[char]) -> (out: Vec<char>)
    ensures
        out@ == trimmed(chars@),
{
    let mut from: usize = 0;
    assert(chars@.skip(0) =~= chars@);
    while from < chars.len() && is_white(chars[from])
        invariant
            from <= chars@.len(),
            trimmed_front(chars@) == trimmed_front(chars@.skip(from as int)),
        decreases chars@.len() - from,
    {
        assert(chars@.skip(from as int).drop_first() =~= chars@.skip(from + 1));
        from += 1;
    }
    let ghost rest = chars@.skip(from as int);
    assert(trimmed_front(chars@) == rest);
    let mut to: usize = chars.len();
    assert(chars@.subrange(from as int, to as int) =~= rest);
    while to > from && is_white(chars[to - 1])
        invariant
            from <= to <= chars@.len(),
            trimmed_back(rest) == trimmed_back(chars@.subrange(from as int, to as int)),
        decreases to - from,
    {
        let ghost cur = chars@.subrange(from as int, to as int);
        assert(cur.last() == chars@[to - 1]);
        assert(cur.drop_last() =~= chars@.subrange(from as int, to - 1));
        to -= 1;
    }
    proof {
        let cur = chars@.subrange(from as int, to as int);
        if to > from {
            assert(cur.last() == chars@[to - 1]);
        }
        assert(trimmed_back(cur) == cur);
    }
    copy_range(chars, from, to)
}

/// `s` without the occurrences of `c` at its two ends.
pub open spec fn stripped_of(s: Seq<char>, c: char) -> Seq<char>
    decreases s.len(),
{
    if s.len() > 0 && s[0] == c {
        stripped_of(s.drop_first(), c)
    } else if s.len() > 0 && s.last() == c {
        stripped_of(s.drop_last(), c)
    } else {
        s
    }
}

/// Takes the occurrences of `c` off the two ends of `chars`.
pub fn strip_char(chars: &[char], c: char) -> (out: Vec<char>)
    ensures
        out@ == stripped_of(chars@, c),
{
    let mut from: usize = 0;
    let mut to: usize = chars.len();
    assert(chars@.subrange(0, to as int) =~= chars@);
    while from < to && (chars[from] == c || chars[to - 1] == c)
        invariant
            from <= to <= chars@.len(),
            stripped_of(chars@, c) == stripped_of(chars@.subrange(from as int, to as int), c),
        decreases to - from,
    {
        let ghost cur = chars@.subrange(from as int, to as int);
        if chars[from] == c {
            assert(cur[0] == c);
            assert(cur.drop_first() =~= chars@.subrange(from + 1, to as int));
            from += 1;
        } else {
            assert(cur[0] != c);
            assert(cur.last() == c);
            assert(cur.drop_last() =~= chars@.subrange(from as int, to - 1));
            to -= 1;
        }
    }
    proof {
        let cur = chars@.subrange(from as int, to as int);
        if from < to {
            assert(cur[0] == chars@[from as int]);
            assert(cur.last() == chars@[to - 1]);
        }
        assert(stripped_of(cur, c) == cur);
    }
    copy_range(chars, from, to)
}

/// The string made of `chars`.
pub fn string_of(chars: &[char]) -> (out: String)
    ensures
        out@ == chars@,
{
    let n: usize = chars.len();
    assert(chars@.subrange(0, n as int) =~= chars@);
    string_from(chars, 0, n)
}

/// The first position from `from` on at which `s` holds `part`.
pub open spec fn first_at(s: Seq<char>, part: Seq<char>, from: int) -> Option<int>
    decreases s.len() - part.len() - from + 1,
{
    if from < 0 || from + part.len() > s.len() {
        None
    } else if holds_at(s, part, from) {
        Some(from)
    } else {
        first_at(s, part, from + 1)
    }
}

/// The first position from `from` on at which `s` holds `part`.
pub fn find_part(s: &[char], part: &[char], from: usize) -> (r: Option<usize>)
    requires
        from <= s@.len(),
    ensures
        match r {
            Some(i) => {
                &&& first_at(s@, part@, from as int) == Some(i as int)
                &&& from <= i
                &&& i + part@.len() <= s@.len()
            },
            None => first_at(s@, part@, from as int) is None,
        },
{
    let n: usize = s.len();
    let m: usize = part.len();
    let mut i: usize = from;
    while m <= n - i
        invariant
            n == s@.len(),
            m == part@.len(),
            from <= i <= n,
            first_at(s@, part@, from as int) == first_at(s@, part@, i as int),
        decreases n - i,
    {
        if matches_at(s, part, i) {
            return Some(i);
        }
        assert(m > 0) by {
            if m == 0 {
                assert(s@.subrange(i as int, i + part@.len()) =~= part@);
            }
        }
        i += 1;
    }
    None
}

/// Whether `a` and `b` are the same text.
pub fn same_text(a: &str, b: &str) -> (r: bool)
    ensures
        r == (a@ == b@),
{
    a.to_owned() == b.to_owned()
}

/// The text of an optional string.
pub open spec fn opt_text(s: Option<String>) -> Option<Seq<char>> {
    match s {
        Some(t) => Some(t@),
        None => None,
    }
}

/// A copy of an optional string.
pub fn clone_opt_string(s: &Option<String>) -> (r: Option<String>)
    ensures
        r == *s,
{
    match s {
        Some(t) => Some(t.clone()),
        None => None,
    }
}

/// The order of texts, of three at a time.
pub proof fn lemma_text_order(a: Seq<char>, b: Seq<char>, c: Seq<char>)
    ensures
        !text_lt(a, a),
        text_lt(a, b) ==> !text_lt(b, a),
        !text_lt(b, a) && !text_lt(c, b) ==> !text_lt(c, a),
        !text_lt(b, a) && !text_lt(c, b) && (a != b || b != c) ==> a != c && text_lt(a, c),
{
    lemma_text_lt_irreflexive(a);
    lemma_text_lt_total(a, b);
    lemma_text_lt_total(b, c);
    if text_lt(a, b) {
        if text_lt(b, a) {
            lemma_text_lt_trans(a, b, a);
        }
        if text_lt(b, c) {
            lemma_text_lt_trans(a, b, c);
        }
    }
    if text_lt(c, a) && text_lt(a, c) {
        lemma_text_lt_trans(a, c, a);
    }
}

/// What reading `s` as a signed number between `min` and `max` gives: an
/// optional sign and at least one digit.
pub open spec fn parsed_int(s: Seq<char>, min: int, max: int) -> Option<int> {
    let negative = s.len() > 0 && s[0] == '-';
    let body = if s.len() > 0 && (s[0] == '+' || s[0] == '-') {
        s.drop_first()
    } else {
        s
    };
    let value: int = if negative {
        -(digits_value(body) as int)
    } else {
        digits_value(body) as int
    };
    if body.len() > 0 && all_digits(body) && min <= value <= max {
        Some(value)
    } else {
        None
    }
}

/// Reads `chars` as an `i32`.
pub fn parse_i32(chars: &[char]) -> (r: Option<i32>)
    ensures
        match r {
            Some(v) => parsed_int(chars@, i32::MIN as int, i32::MAX as int) == Some(v as int),
            None => parsed_int(chars@, i32::MIN as int, i32::MAX as int) is None,
        },
{
    if chars.len() == 0 {
        return None;
    }
    let signed: bool = chars[0] == '+' || chars[0] == '-';
    let from: usize = if signed {
        1
    } else {
        0
    };
    let negative: bool = chars[0] == '-';
    let ghost body = if signed {
        chars@.drop_first()
    } else {
        chars@
    };
    let n: usize = chars.len();
    let digits: Vec<char> = copy_range(chars, from, n);
    assert(digits@ =~= body);
    if digits.len() == 0 || digits[0] == '+' {
        proof {
            if body.len() > 0 {
                assert(!is_digit(body[0]));
            }
        }
        return None;
    }
    // One more than the largest magnitude that any 32-bit number has.
    let value: u64 = match parse_uint(digits.as_slice(), 0x8000_0000) {
        Some(v) => v,
        None => {
            return None;
        },
    };
    if negative {
        if value == 0x8000_0000 {
            Some(i32::MIN)
        } else {
            Some(-(value as i32))
        }
    } else if value == 0x8000_0000 {
        None
    } else {
        Some(value as i32)
    }
}

/// `s` without a carriage return at its end.
pub open spec fn without_cr(s: Seq<char>) -> Seq<char> {
    if s.len() > 0 && s.last() == '\r' {
        s.drop_last()
    } else {
        s
    }
}

/// The lines of `s`: what lies between line feeds, without the carriage return
/// before one. A last line that is empty does not count.
pub open spec fn lines_of(s: Seq<char>) -> Seq<Seq<char>> {
    let parts = split_at_char(s, '\n');
    let ended = Seq::new((parts.len() - 1) as nat, |i: int| without_cr(parts[i]));
    if parts.last().len() == 0 {
        ended
    } else {
        ended.push(parts.last())
    }
}

/// The lines of `s`.
pub fn lines(s: &str) -> (out: Vec<Vec<char>>)
    ensures
        pieces(out@) == lines_of(s@),
{
    let chars: Vec<char> = chars_of(s);
    let parts: Vec<Vec<char>> = split_chars(chars.as_slice(), '\n');
    let ghost all = pieces(parts@);
    let ghost ended = Seq::new((all.len() - 1) as nat, |i: int| without_cr(all[i]));
    let last: usize = parts.len() - 1;
    let mut out: Vec<Vec<char>> = Vec::new();
    let mut i: usize = 0;
    while i < last
        invariant
            last == parts@.len() - 1,
            i <= last,
            all == pieces(parts@),
            ended == Seq::new((all.len() - 1) as nat, |i: int| without_cr(all[i])),
            pieces(out@) == ended.take(i as int),
        decreases last - i,
    {
        let part: &Vec<char> = &parts[i];
        let n: usize = part.len();
        let line: Vec<char> = if n > 0 && part[n - 1] == '\r' {
            copy_range(part.as_slice(), 0, n - 1)
        } else {
            copy_range(part.as_slice(), 0, n)
        };
        assert(all[i as int] == part@);
        assert(line@ =~= ended[i as int]);
        let ghost before = pieces(out@);
        out.push(line);
        assert(pieces(out@) =~= before.push(line@));
        assert(ended.take(i + 1) =~= before.push(line@));
        i += 1;
    }
    assert(ended.take(ended.len() as int) =~= ended);
    assert(all.last() == parts@[last as int]@);
    if parts[last].len() > 0 {
        let n: usize = parts[last].len();
        let line: Vec<char> = copy_range(parts[last].as_slice(), 0, n);
        let ghost before = pieces(out@);
        assert(line@ =~= all.last());
        out.push(line);
        assert(pieces(out@) =~= before.push(line@));
    }
    out
}

/// The upper case of an ASCII letter; any other character stays.
pub open spec fn ascii_upper(c: char) -> char {
    if 'a' <= c <= 'z' {
        ((c as u32) - 32) as char
    } else {
        c
    }
}

/// `s` with its ASCII letters in upper case.
pub open spec fn ascii_uppered(s: Seq<char>) -> Seq<char> {
    Seq::new(s.len(), |i: int| ascii_upper(s[i]))
}

/// Puts the ASCII letters of `s` in upper case.
pub fn to_ascii_upper(s: &str) -> (out: String)
    ensures
        out@ == ascii_uppered(s@),
{
    let chars: Vec<char> = chars_of(s);
    let mut out: String = String::new();
    let mut i: usize = 0;
    while i < chars.len()
        invariant
            i <= chars@.len(),
            chars@ == s@,
            out@ == ascii_uppered(s@).take(i as int),
        decreases chars@.len() - i,
    {
        let c: char = chars[i];
        let u: char = if 'a' <= c && c <= 'z' {
            ((c as u8) - 32) as char
        } else {
            c
        };
        out.push(u);
        assert(ascii_uppered(s@).take(i + 1) =~= ascii_uppered(s@).take(i as int).push(u));
        i += 1;
    }
    assert(ascii_uppered(s@).take(s@.len() as int) =~= ascii_uppered(s@));
    out
}

/// Puts the ASCII letters of `s` in lower case.
pub fn to_ascii_lower(s: &str) -> (out: String)
    ensures
        out@ == ascii_lowered(s@),
{
    let chars: Vec<char> = chars_of(s);
    let mut out: String = String::new();
    let mut i: usize = 0;
    while i < chars.len()
        invariant
            i <= chars@.len(),
            chars@ == s@,
            out@ == ascii_lowered(s@).take(i as int),
        decreases chars@.len() - i,
    {
        let c: char = chars[i];
        let l: char = if 'A' <= c && c <= 'Z' {
            ((c as u8) + 32) as char
        } else {
            c
        };
        out.push(l);
        assert(ascii_lowered(s@).take(i + 1) =~= ascii_lowered(s@).take(i as int).push(l));
        i += 1;
    }
    assert(ascii_lowered(s@).take(s@.len() as int) =~= ascii_lowered(s@));
    out
}

/// The words of a text: what stands between white space.
pub open spec fn space_separated(s: Seq<char>) -> Seq<Seq<char>>
    decreases s.len(),
{
    if s.len() == 0 {
        Seq::empty()
    } else {
        let init = s.drop_last();
        if is_space(s.last()) {
            space_separated(init)
        } else if init.len() == 0 || is_space(init.last()) {
            space_separated(init).push(seq![s.last()])
        } else {
            space_separated(init).drop_last().push(space_separated(init).last().push(s.last()))
        }
    }
}

proof fn lemma_words_end(s: Seq<char>)
    requires
        s.len() > 0,
        !is_space(s.last()),
    ensures
        space_separated(s).len() > 0,
{
}

/// The words of a text.
pub fn split_words(chars: &[char]) -> (out: Vec<Vec<char>>)
    ensures
        pieces(out@) == space_separated(chars@),
{
    let mut out: Vec<Vec<char>> = Vec::new();
    let mut in_word: bool = false;
    let mut i: usize = 0;
    assert(pieces(out@) =~= space_separated(chars@.take(0)));
    while i < chars.len()
        invariant
            i <= chars@.len(),
            pieces(out@) == space_separated(chars@.take(i as int)),
            in_word == (i > 0 && !is_space(chars@[i - 1])),
        decreases chars@.len() - i,
    {
        let c: char = chars[i];
        let ghost init = chars@.take(i as int);
        let ghost before = pieces(out@);
        assert(chars@.take(i + 1).drop_last() =~= init);
        assert(i > 0 ==> init.last() == chars@[i - 1]);
        if is_white(c) {
            in_word = false;
        } else if in_word {
            proof {
                lemma_words_end(init);
                assert(out@.len() == before.len());
            }
            let mut w: Vec<char> = out.pop().unwrap();
            assert(w@ == before.last());
            w.push(c);
            out.push(w);
            assert(pieces(out@) =~= before.drop_last().push(before.last().push(c)));
        } else {
            let mut w: Vec<char> = Vec::new();
            w.push(c);
            out.push(w);
            assert(w@ =~= seq![c]);
            assert(pieces(out@) =~= before.push(seq![c]));
            in_word = true;
        }
        i += 1;
    }
    assert(chars@.take(i as int) =~= chars@);
    out
}

} // verus!
