//! What the words of a panel say.

use crate::ocr_lab::engine::{BBox, Word, WordView};
use crate::ocr_lab::geometry;
use crate::ocr_lab::geometry::sort_numbers;
use crate::sorting;
use crate::sorting::{sort_stably, Ranked};
use crate::text;
use crate::text::{chars_of, join, parse_uint, same_text, to_ascii_upper};
use vstd::prelude::*;

verus! {

/// Whether a character is a letter or a number.
pub uninterp spec fn alphanumeric(c: char) -> bool;

/// Whether a character is a letter.
pub uninterp spec fn alphabetic(c: char) -> bool;

/// Whether a character is a letter of the ASCII alphabet.
pub open spec fn is_ascii_letter(c: char) -> bool {
    'a' <= c <= 'z' || 'A' <= c <= 'Z'
}

/// Calls `char::is_alphanumeric`. Among the ASCII characters these are the
/// letters and the digits; of the others only that the answer depends on the
/// character is claimed.
#[verifier::external_body]
fn is_alphanumeric(c: char) -> (r: bool)
    ensures
        r == alphanumeric(c),
        (c as u32) < 128 ==> r == (is_ascii_letter(c) || text::is_digit(c)),
{
    c.is_alphanumeric()
}

/// Calls `char::is_alphabetic`. Among the ASCII characters these are the
/// letters; of the others only that the answer depends on the character is
/// claimed.
#[verifier::external_body]
fn is_alphabetic(c: char) -> (r: bool)
    ensures
        r == alphabetic(c),
        (c as u32) < 128 ==> r == is_ascii_letter(c),
{
    c.is_alphabetic()
}

/// How many letters and numbers a text has.
pub open spec fn alphanumerics(t: Seq<char>) -> nat {
    geometry::kept(t, |c: char| alphanumeric(c)).len()
}

/// How many letters a text has.
pub open spec fn letters(t: Seq<char>) -> nat {
    geometry::kept(t, |c: char| alphabetic(c)).len()
}

fn count_alphanumeric(t: &str) -> (n: usize)
    ensures
        n == alphanumerics(t@),
{
    let ghost p = |c: char| alphanumeric(c);
    let chars: Vec<char> = chars_of(t);
    let mut n: usize = 0;
    let mut i: usize = 0;
    while i < chars.len()
        invariant
            i <= chars@.len(),
            n <= i,
            p == |c: char| alphanumeric(c),
            n == geometry::kept(chars@.take(i as int), p).len(),
        decreases chars@.len() - i,
    {
        assert(chars@.take(i + 1).drop_last() =~= chars@.take(i as int));
        if is_alphanumeric(chars[i]) {
            n += 1;
        }
        i += 1;
    }
    assert(chars@.take(i as int) =~= chars@);
    n
}

fn count_alphabetic(t: &str) -> (n: usize)
    ensures
        n == letters(t@),
{
    let ghost p = |c: char| alphabetic(c);
    let chars: Vec<char> = chars_of(t);
    let mut n: usize = 0;
    let mut i: usize = 0;
    while i < chars.len()
        invariant
            i <= chars@.len(),
            n <= i,
            p == |c: char| alphabetic(c),
            n == geometry::kept(chars@.take(i as int), p).len(),
        decreases chars@.len() - i,
    {
        assert(chars@.take(i + 1).drop_last() =~= chars@.take(i as int));
        if is_alphabetic(chars[i]) {
            n += 1;
        }
        i += 1;
    }
    assert(chars@.take(i as int) =~= chars@);
    n
}

/// Whether a word has at least two letters.
pub fn has_letters(t: &str) -> (r: bool)
    ensures
        r == (letters(t@) >= 2),
{
    count_alphabetic(t) >= 2
}

/// A character of a level, with letters that are misread for digits put right.
pub open spec fn level_char(c: char) -> char {
    let up = text::ascii_upper(c);
    if up == 'O' {
        '0'
    } else if up == 'I' {
        '1'
    } else {
        up
    }
}

/// A level as it is written.
pub open spec fn level_text(t: Seq<char>) -> Seq<char> {
    Seq::new(t.len(), |i: int| level_char(t[i]))
}

/// Whether a word is a level: the letters LV and a number.
pub open spec fn is_level(t: Seq<char>) -> bool {
    let s = level_text(t);
    &&& s.len() >= 3
    &&& s[0] == 'L'
    &&& s[1] == 'V'
    &&& forall|i: int| 2 <= i < s.len() ==> text::is_digit(#[trigger] s[i])
}

/// A level as it is written.
pub fn normalize_level(t: &str) -> (r: String)
    ensures
        r@ == level_text(t@),
{
    let up: String = to_ascii_upper(t);
    let chars: Vec<char> = chars_of(&up);
    let mut r: String = String::new();
    let mut i: usize = 0;
    while i < chars.len()
        invariant
            i <= chars@.len(),
            chars@ == text::ascii_uppered(t@),
            r@ == level_text(t@).take(i as int),
        decreases chars@.len() - i,
    {
        let c: char = chars[i];
        r.push(
            if c == 'O' {
                '0'
            } else if c == 'I' {
                '1'
            } else {
                c
            },
        );
        assert(r@ =~= level_text(t@).take(i + 1));
        i += 1;
    }
    assert(level_text(t@).take(i as int) =~= level_text(t@));
    r
}

/// Whether a word is a level.
pub fn is_level_token(t: &str) -> (r: bool)
    ensures
        r == is_level(t@),
{
    let s: String = normalize_level(t);
    let chars: Vec<char> = chars_of(&s);
    if chars.len() < 3 || chars[0] != 'L' || chars[1] != 'V' {
        return false;
    }
    let mut i: usize = 2;
    while i < chars.len()
        invariant
            2 <= i <= chars@.len(),
            chars@ == level_text(t@),
            forall|j: int| 2 <= j < i ==> text::is_digit(#[trigger] chars@[j]),
        decreases chars@.len() - i,
    {
        let c: char = chars[i];
        if !('0' <= c && c <= '9') {
            assert(!text::is_digit(chars@[i as int]));
            return false;
        }
        i += 1;
    }
    true
}

/// The digit that a character stands for, as digits are misread.
pub open spec fn digit_for(c: char) -> Option<char> {
    if text::is_digit(c) {
        Some(c)
    } else if c == 'o' || c == 'O' || c == 'D' {
        Some('0')
    } else if c == 'l' || c == 'I' || c == 'i' || c == '|' {
        Some('1')
    } else if c == 's' || c == 'S' || c == 'B' || c == 'e' || c == 'E' {
        Some('8')
    } else if c == 'g' || c == 'q' || c == 'Q' {
        Some('9')
    } else if c == 'z' || c == 'Z' {
        Some('2')
    } else if c == 'A' {
        Some('4')
    } else if c == 'b' {
        Some('6')
    } else {
        None
    }
}

/// The digits that a text stands for.
pub open spec fn digits_for(t: Seq<char>) -> Seq<char>
    decreases t.len(),
{
    if t.len() == 0 {
        Seq::empty()
    } else {
        match digit_for(t.last()) {
            Some(d) => digits_for(t.drop_last()).push(d),
            None => digits_for(t.drop_last()),
        }
    }
}

fn as_digit(c: char) -> (r: Option<char>)
    ensures
        r == digit_for(c),
{
    if '0' <= c && c <= '9' {
        Some(c)
    } else {
        match c {
            'o' | 'O' | 'D' => Some('0'),
            'l' | 'I' | 'i' | '|' => Some('1'),
            's' | 'S' | 'B' | 'e' | 'E' => Some('8'),
            'g' | 'q' | 'Q' => Some('9'),
            'z' | 'Z' => Some('2'),
            'A' => Some('4'),
            'b' => Some('6'),
            _ => None,
        }
    }
}

/// Only digits stand for characters.
pub(crate) proof fn lemma_digits_for(t: Seq<char>)
    ensures
        text::all_digits(digits_for(t)),
        digits_for(t).len() <= t.len(),
    decreases t.len(),
{
    if t.len() > 0 {
        lemma_digits_for(t.drop_last());
    }
}

/// The digits that a word stands for, where there are any.
pub fn digitize(s: &str) -> (r: Option<String>)
    ensures
        (r is None) == (digits_for(s@).len() == 0),
        r matches Some(d) ==> d@ == digits_for(s@) && text::all_digits(d@),
{
    let chars: Vec<char> = chars_of(s);
    let mut out: String = String::new();
    let mut n: usize = 0;
    let mut i: usize = 0;
    while i < chars.len()
        invariant
            i <= chars@.len(),
            n <= i,
            n == out@.len(),
            out@ == digits_for(chars@.take(i as int)),
        decreases chars@.len() - i,
    {
        assert(chars@.take(i + 1).drop_last() =~= chars@.take(i as int));
        if let Some(d) = as_digit(chars[i]) {
            out.push(d);
            n += 1;
        }
        i += 1;
    }
    assert(chars@.take(i as int) =~= chars@);
    proof {
        lemma_digits_for(s@);
    }
    if n == 0 {
        None
    } else {
        Some(out)
    }
}

/// Whether a word belongs to the frame of the panel.
pub open spec fn chrome(t: Seq<char>) -> bool {
    let up = text::ascii_uppered(t);
    up == "FROM"@ || up == "RAID"@ || up == "FROM."@ || up == "RAID."@ || up == "BACK"@ || up
        == "LEVEL"@ || up == "UP"@
}

/// Whether a word belongs to the frame of the panel.
pub fn is_chrome(t: &str) -> (r: bool)
    ensures
        r == chrome(t@),
{
    let up: String = to_ascii_upper(t);
    same_text(&up, "FROM") || same_text(&up, "RAID") || same_text(&up, "FROM.") || same_text(
        &up,
        "RAID.",
    ) || same_text(&up, "BACK") || same_text(&up, "LEVEL") || same_text(&up, "UP")
}

/// Whether a character belongs to a progress such as `2/8`.
pub open spec fn is_progress_char(c: char) -> bool {
    text::is_digit(c) || c == '/'
}

/// The characters of a progress.
pub open spec fn progress_text(t: Seq<char>) -> Seq<char> {
    geometry::kept(t, |c: char| is_progress_char(c))
}

/// Two numbers, where both can be read.
pub open spec fn both(a: Seq<char>, b: Seq<char>) -> Option<(u32, u32)> {
    match (text::parsed_uint(a, u32::MAX as nat), text::parsed_uint(b, u32::MAX as nat)) {
        (Some(x), Some(y)) => Some((x as u32, y as u32)),
        _ => None,
    }
}

/// What a progress says: the numbers before and behind the first slash; two
/// digits without a slash stand for one each.
pub open spec fn progress_of(t: Seq<char>) -> Option<(u32, u32)> {
    let s = progress_text(t);
    match text::first_at(s, seq!['/'], 0) {
        Some(k) => both(s.take(k), s.skip(k + 1)),
        None => if s.len() == 2 {
            both(s.take(1), s.skip(1))
        } else {
            None
        },
    }
}

proof fn lemma_digits_are_kept(t: Seq<char>)
    requires
        forall|i: int| 0 <= i < t.len() ==> is_progress_char(#[trigger] t[i]),
    ensures
        progress_text(t) == t,
    decreases t.len(),
{
    if t.len() > 0 {
        lemma_digits_are_kept(t.drop_last());
        assert(is_progress_char(t.last()));
        assert(t.drop_last().push(t.last()) =~= t);
    }
}

/// Two numbers with a slash between them.
pub open spec fn written_progress(a: u32, b: u32) -> Seq<char> {
    text::decimal(a as nat) + seq!['/'] + text::decimal(b as nat)
}

/// A progress that is written as two numbers with a slash between them reads
/// back as these numbers, whatever else but digits and slashes stands around
/// and between them.
pub proof fn law_written_progress_reads_back(t: Seq<char>, a: u32, b: u32)
    ensures
        progress_of(written_progress(a, b)) == Some((a, b)),
        progress_text(t) == written_progress(a, b) ==> progress_of(t) == Some((a, b)),
{
    let x = text::decimal(a as nat);
    let y = text::decimal(b as nat);
    let s = written_progress(a, b);
    text::lemma_decimal_digits(a as nat);
    text::lemma_decimal_digits(b as nat);
    text::lemma_decimal_reads_back(a as nat, u32::MAX as nat);
    text::lemma_decimal_reads_back(b as nat, u32::MAX as nat);
    assert forall|i: int| 0 <= i < s.len() implies is_progress_char(#[trigger] s[i]) by {
        if i < x.len() {
            assert(s[i] == x[i]);
        } else if i > x.len() {
            assert(s[i] == y[i - x.len() - 1]);
        }
    }
    assert forall|i: int| 0 <= i < x.len() implies #[trigger] s[i] != '/' by {
        assert(s[i] == x[i]);
    }
    lemma_digits_are_kept(s);
    lemma_first_slash(s, 0, x.len() as int);
    assert(s.take(x.len() as int) =~= x);
    assert(s.skip(x.len() as int + 1) =~= y);
}

/// Without a slash just two digits are a progress, one number each. With one,
/// neither side may be empty and no second one may follow.
pub proof fn law_what_is_no_progress(t: Seq<char>, k: int)
    requires
        ({
            let s = progress_text(t);
            0 <= k <= s.len() && (k < s.len() ==> s[k] == '/') && forall|i: int|
                0 <= i < k ==> #[trigger] s[i] != '/'
        }),
    ensures
        ({
            let s = progress_text(t);
            &&& k == s.len() && s.len() == 2 ==> progress_of(t) == Some(
                ((s[0] as u32 - '0' as u32) as u32, (s[1] as u32 - '0' as u32) as u32),
            )
            &&& k == s.len() && s.len() != 2 ==> progress_of(t) is None
            &&& k < s.len() && (k == 0 || k + 1 == s.len()) ==> progress_of(t) is None
            &&& forall|j: int|
                k < j < s.len() && #[trigger] s[j] == '/' ==> progress_of(t) is None
        }),
{
    let s = progress_text(t);
    lemma_kept_are_progress_chars(t);
    if k < s.len() {
        lemma_first_slash(s, 0, k);
        assert forall|j: int| k < j < s.len() && #[trigger] s[j] == '/' implies progress_of(
            t,
        ) is None by {
            let right = s.skip(k + 1);
            assert(right[j - k - 1] == '/');
            assert(right[0] == s[k + 1]);
        }
    } else {
        lemma_no_slash(s, 0);
        if s.len() == 2 {
            let (l, r) = (s.take(1), s.skip(1));
            assert(l =~= seq![s[0]] && r =~= seq![s[1]]);
            assert(l.drop_last() =~= Seq::<char>::empty());
            assert(r.drop_last() =~= Seq::<char>::empty());
            reveal_with_fuel(text::digits_value, 2);
            assert(is_progress_char(s[0]) && is_progress_char(s[1]));
        }
    }
}

proof fn lemma_kept_are_progress_chars(t: Seq<char>)
    ensures
        forall|i: int|
            0 <= i < progress_text(t).len() ==> is_progress_char(#[trigger] progress_text(t)[i]),
    decreases t.len(),
{
    if t.len() > 0 {
        let before = progress_text(t.drop_last());
        lemma_kept_are_progress_chars(t.drop_last());
        assert forall|i: int| 0 <= i < progress_text(t).len() implies is_progress_char(
            #[trigger] progress_text(t)[i],
        ) by {
            if i < before.len() {
                assert(progress_text(t)[i] == before[i]);
            }
        }
    }
}

proof fn lemma_no_slash(s: Seq<char>, from: int)
    requires
        0 <= from <= s.len(),
        forall|i: int| from <= i < s.len() ==> #[trigger] s[i] != '/',
    ensures
        text::first_at(s, seq!['/'], from) is None,
    decreases s.len() - from,
{
    if from < s.len() {
        assert(s.subrange(from, from + 1) =~= seq![s[from]]);
        assert(seq![s[from]][0] != seq!['/'][0]);
        lemma_no_slash(s, from + 1);
    }
}

proof fn lemma_first_slash(s: Seq<char>, from: int, k: int)
    requires
        0 <= from <= k < s.len(),
        s[k] == '/',
        forall|i: int| from <= i < k ==> #[trigger] s[i] != '/',
    ensures
        text::first_at(s, seq!['/'], from) == Some(k),
    decreases k - from,
{
    assert(s.subrange(from, from + 1) =~= seq![s[from]]);
    if from < k {
        assert(seq![s[from]][0] != seq!['/'][0]);
        lemma_first_slash(s, from + 1, k);
    }
}

fn read_both(chars: &Vec<char>, k: usize, m: usize) -> (r: Option<(u32, u32)>)
    requires
        k <= m <= chars@.len(),
    ensures
        r == both(chars@.take(k as int), chars@.skip(m as int)),
{
    let n: usize = chars.len();
    let a: Vec<char> = text::copy_range(chars.as_slice(), 0, k);
    let b: Vec<char> = text::copy_range(chars.as_slice(), m, n);
    assert(a@ =~= chars@.take(k as int));
    assert(b@ =~= chars@.skip(m as int));
    match (parse_uint(a.as_slice(), u32::MAX as u64), parse_uint(b.as_slice(), u32::MAX as u64)) {
        (Some(x), Some(y)) => Some((x as u32, y as u32)),
        _ => None,
    }
}

/// What a progress says.
pub fn split_progress(s: &str) -> (r: Option<(u32, u32)>)
    ensures
        r == progress_of(s@),
{
    let ghost p = |c: char| is_progress_char(c);
    let all: Vec<char> = chars_of(s);
    let mut chars: Vec<char> = Vec::new();
    let mut i: usize = 0;
    while i < all.len()
        invariant
            i <= all@.len(),
            p == |c: char| is_progress_char(c),
            chars@ == geometry::kept(all@.take(i as int), p),
        decreases all@.len() - i,
    {
        assert(all@.take(i + 1).drop_last() =~= all@.take(i as int));
        let c: char = all[i];
        if ('0' <= c && c <= '9') || c == '/' {
            chars.push(c);
        }
        i += 1;
    }
    assert(all@.take(i as int) =~= all@);
    let mut slash: Vec<char> = Vec::new();
    slash.push('/');
    assert(slash@ =~= seq!['/']);
    match text::find_part(chars.as_slice(), slash.as_slice(), 0) {
        Some(k) => read_both(&chars, k, k + 1),
        None => if chars.len() == 2 {
            read_both(&chars, 1, 1)
        } else {
            None
        },
    }
}

/// A copy of a word.
pub fn copy_word(w: &Word) -> (r: Word)
    ensures
        r@ == w@,
{
    Word { text: w.text.clone(), bbox: w.bbox, confidence: w.confidence }
}

/// A word that is ranked by its row, and within the row by its column.
pub struct ByRow(pub Word);

impl View for ByRow {
    type V = WordView;

    open spec fn view(&self) -> WordView {
        self.0@
    }
}

impl Ranked for ByRow {
    open spec fn precedes(a: WordView, b: WordView) -> bool {
        a.bbox.y < b.bbox.y || a.bbox.y == b.bbox.y && a.bbox.x < b.bbox.x
    }

    proof fn precedes_irreflexive(a: WordView) {
    }

    proof fn precedes_asymmetric(a: WordView, b: WordView) {
    }

    proof fn precedes_negatively_transitive(a: WordView, b: WordView, c: WordView) {
    }

    fn is_before(&self, other: &Self) -> (r: bool) {
        let a: BBox = self.0.bbox;
        let b: BBox = other.0.bbox;
        a.y < b.y || a.y == b.y && a.x < b.x
    }
}

/// A word that is ranked by its column.
pub struct ByColumn(pub Word);

impl View for ByColumn {
    type V = WordView;

    open spec fn view(&self) -> WordView {
        self.0@
    }
}

impl Ranked for ByColumn {
    open spec fn precedes(a: WordView, b: WordView) -> bool {
        a.bbox.x < b.bbox.x
    }

    proof fn precedes_irreflexive(a: WordView) {
    }

    proof fn precedes_asymmetric(a: WordView, b: WordView) {
    }

    proof fn precedes_negatively_transitive(a: WordView, b: WordView, c: WordView) {
    }

    fn is_before(&self, other: &Self) -> (r: bool) {
        self.0.bbox.x < other.0.bbox.x
    }
}

/// The texts of some words.
pub open spec fn word_texts(ws: Seq<WordView>) -> Seq<Seq<char>> {
    Seq::new(ws.len(), |i: int| ws[i].text)
}

/// Some words as one text.
pub open spec fn sentence(ws: Seq<WordView>) -> Seq<char> {
    text::joined(word_texts(ws), " "@)
}

/// Whether a word can belong to the title of a panel of height `ph`.
pub open spec fn in_title(w: WordView, ph: u32) -> bool {
    w.bbox.y < ph / 4 && !is_level(w.text) && alphanumerics(w.text) >= 2
}

/// The height that the largest four tenths of the words reach.
pub open spec fn title_height(top: Seq<WordView>) -> u32 {
    geometry::ascending(geometry::heights(geometry::boxes(top)))[top.len() as int * 6 / 10]
}

/// The title of a panel of height `ph`: the words on the row of the first
/// large one in its upper quarter.
pub open spec fn title_of(ws: Seq<WordView>, ph: u32) -> Seq<char> {
    let top = geometry::kept(ws, |w: WordView| in_title(w, ph));
    if top.len() == 0 {
        Seq::empty()
    } else {
        let tall = geometry::kept(top, |w: WordView| w.bbox.h >= title_height(top));
        let seed = sorting::in_order::<ByRow>(tall)[0].bbox;
        let band = geometry::kept(
            top,
            |w: WordView| geometry::distance(w.bbox.y as int, seed.y as int) < seed.h,
        );
        sentence(sorting::in_order::<ByColumn>(band))
    }
}

fn title_words(words: &Vec<Word>, ph: u32) -> (r: Vec<Word>)
    ensures
        sorting::views(r@) == geometry::kept(
            sorting::views(words@),
            |w: WordView| in_title(w, ph),
        ),
{
    let ghost p = |w: WordView| in_title(w, ph);
    let ghost all = sorting::views(words@);
    let mut r: Vec<Word> = Vec::new();
    assert(sorting::views(r@) =~= geometry::kept(all.take(0), p));
    let mut i: usize = 0;
    while i < words.len()
        invariant
            i <= words@.len(),
            all == sorting::views(words@),
            p == |w: WordView| in_title(w, ph),
            sorting::views(r@) == geometry::kept(all.take(i as int), p),
        decreases words@.len() - i,
    {
        let w: &Word = &words[i];
        assert(all.take(i + 1).drop_last() =~= all.take(i as int));
        assert(all.take(i + 1).last() == w@);
        if w.bbox.y < ph / 4 && !is_level_token(&w.text) && count_alphanumeric(&w.text) >= 2 {
            let ghost before = r@;
            r.push(copy_word(w));
            assert(sorting::views(r@) =~= sorting::views(before).push(w@));
        }
        i += 1;
    }
    assert(all.take(i as int) =~= all);
    r
}

fn tall_words(top: &Vec<Word>, least_h: u32) -> (r: Vec<ByRow>)
    ensures
        sorting::views(r@) == geometry::kept(
            sorting::views(top@),
            |w: WordView| w.bbox.h >= least_h,
        ),
{
    let ghost p = |w: WordView| w.bbox.h >= least_h;
    let ghost all = sorting::views(top@);
    let mut r: Vec<ByRow> = Vec::new();
    assert(sorting::views(r@) =~= geometry::kept(all.take(0), p));
    let mut i: usize = 0;
    while i < top.len()
        invariant
            i <= top@.len(),
            all == sorting::views(top@),
            p == |w: WordView| w.bbox.h >= least_h,
            sorting::views(r@) == geometry::kept(all.take(i as int), p),
        decreases top@.len() - i,
    {
        let w: &Word = &top[i];
        assert(all.take(i + 1).drop_last() =~= all.take(i as int));
        assert(all.take(i + 1).last() == w@);
        if w.bbox.h >= least_h {
            let ghost before = r@;
            r.push(ByRow(copy_word(w)));
            assert(sorting::views(r@) =~= sorting::views(before).push(w@));
        }
        i += 1;
    }
    assert(all.take(i as int) =~= all);
    r
}

fn band_words(top: &Vec<Word>, y: u32, reach: u32) -> (r: Vec<ByColumn>)
    ensures
        sorting::views(r@) == geometry::kept(
            sorting::views(top@),
            |w: WordView| geometry::distance(w.bbox.y as int, y as int) < reach,
        ),
{
    let ghost p = |w: WordView| geometry::distance(w.bbox.y as int, y as int) < reach;
    let ghost all = sorting::views(top@);
    let mut r: Vec<ByColumn> = Vec::new();
    assert(sorting::views(r@) =~= geometry::kept(all.take(0), p));
    let mut i: usize = 0;
    while i < top.len()
        invariant
            i <= top@.len(),
            all == sorting::views(top@),
            p == |w: WordView| geometry::distance(w.bbox.y as int, y as int) < reach,
            sorting::views(r@) == geometry::kept(all.take(i as int), p),
        decreases top@.len() - i,
    {
        let w: &Word = &top[i];
        assert(all.take(i + 1).drop_last() =~= all.take(i as int));
        assert(all.take(i + 1).last() == w@);
        let d: u32 = if w.bbox.y < y {
            y - w.bbox.y
        } else {
            w.bbox.y - y
        };
        if d < reach {
            let ghost before = r@;
            r.push(ByColumn(copy_word(w)));
            assert(sorting::views(r@) =~= sorting::views(before).push(w@));
        }
        i += 1;
    }
    assert(all.take(i as int) =~= all);
    r
}

/// A sequence of which something is kept keeps it.
proof fn lemma_kept_some<A>(s: Seq<A>, p: spec_fn(A) -> bool, i: int)
    requires
        0 <= i < s.len(),
        p(s[i]),
    ensures
        geometry::kept(s, p).len() > 0,
    decreases s.len(),
{
    if i < s.len() - 1 {
        lemma_kept_some(s.drop_last(), p, i);
    }
}

/// The title of a panel of height `panel_h`.
pub fn pick_title(words: &Vec<Word>, panel_h: u32) -> (r: String)
    ensures
        r@ == title_of(sorting::views(words@), panel_h),
{
    let top: Vec<Word> = title_words(words, panel_h);
    let ghost ts = sorting::views(top@);
    if top.len() == 0 {
        return String::new();
    }
    let mut hs: Vec<u32> = Vec::new();
    let mut i: usize = 0;
    while i < top.len()
        invariant
            i <= top@.len(),
            ts == sorting::views(top@),
            hs@ == geometry::heights(geometry::boxes(ts)).take(i as int),
        decreases top@.len() - i,
    {
        hs.push(top[i].bbox.h);
        assert(hs@ =~= geometry::heights(geometry::boxes(ts)).take(i + 1));
        i += 1;
    }
    let ghost all_h = geometry::heights(geometry::boxes(ts));
    assert(all_h.take(i as int) =~= all_h);
    let sorted: Vec<u32> = sort_numbers(hs);
    let n: usize = sorted.len();
    let k: usize = (n as u128 * 6 / 10) as usize;
    let least_h: u32 = sorted[k];
    let tall: Vec<ByRow> = tall_words(&top, least_h);
    let ghost tall0 = sorting::views(tall@);
    proof {
        geometry::lemma_ascending(all_h);
        let j = choose|j: int| 0 <= j < all_h.len() && all_h[j] == least_h;
        assert(ts[j].bbox.h == least_h);
        lemma_kept_some(ts, |w: WordView| w.bbox.h >= least_h, j);
        sorting::lemma_in_order::<ByRow>(tall0);
        assert(least_h == title_height(ts));
        assert(tall0 == geometry::kept(ts, |w: WordView| w.bbox.h >= title_height(ts))) by {
            assert((|w: WordView| w.bbox.h >= least_h) =~= (|w: WordView|
                w.bbox.h >= title_height(ts)));
        }
    }
    let by_row: Vec<ByRow> = sort_stably(tall);
    assert(sorting::views(by_row@)[0] == by_row@[0]@);
    let seed: BBox = by_row[0].0.bbox;
    let band: Vec<ByColumn> = band_words(&top, seed.y, seed.h);
    let row: Vec<ByColumn> = sort_stably(band);
    let mut parts: Vec<String> = Vec::new();
    let ghost rs = sorting::views(row@);
    assert(crate::ids::texts(parts@) =~= word_texts(rs.take(0)));
    let mut i: usize = 0;
    while i < row.len()
        invariant
            i <= row@.len(),
            rs == sorting::views(row@),
            crate::ids::texts(parts@) == word_texts(rs.take(i as int)),
        decreases row@.len() - i,
    {
        let ghost before = parts@;
        parts.push(row[i].0.text.clone());
        assert(crate::ids::texts(parts@) =~= crate::ids::texts(before).push(rs[i as int].text));
        assert(word_texts(rs.take(i + 1)) =~= word_texts(rs.take(i as int)).push(
            rs[i as int].text,
        ));
        i += 1;
    }
    assert(rs.take(i as int) =~= rs);
    join(&parts, " ")
}

} // verus!
