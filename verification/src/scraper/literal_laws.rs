//! Where an object literal ends.

use crate::scraper::parse_ts;
use crate::text;
use crate::text_laws;
use vstd::prelude::*;

verus! {

/// Whether the text holds neither quotes nor slashes from `i` up to `j`.
pub open spec fn is_bare(s: Seq<char>, i: int, j: int) -> bool {
    forall|k: int|
        i <= k < j ==> #[trigger] s[k] != '"' && s[k] != '\'' && s[k] != '`' && s[k] != '/'
}

/// How many more braces are opened than closed from `i` up to `j`.
pub open spec fn open_braces(s: Seq<char>, i: int, j: int) -> int
    decreases j - i,
{
    if i >= j {
        0
    } else {
        open_braces(s, i, j - 1) + if s[j - 1] == '{' {
            1int
        } else if s[j - 1] == '}' {
            -1
        } else {
            0
        }
    }
}

proof fn lemma_open_first(s: Seq<char>, i: int, j: int)
    requires
        i < j,
    ensures
        open_braces(s, i, j) == open_braces(s, i + 1, j) + if s[i] == '{' {
            1int
        } else if s[i] == '}' {
            -1
        } else {
            0
        },
    decreases j - i,
{
    if i + 1 < j {
        lemma_open_first(s, i, j - 1);
    } else {
        assert(open_braces(s, i, i) == 0);
        assert(open_braces(s, i + 1, j) == 0);
    }
}

proof fn lemma_closing(s: Seq<char>, i: int, depth: int, c: int)
    requires
        0 <= i <= c < s.len(),
        depth >= 1,
        is_bare(s, i, c + 1),
        s[c] == '}',
        depth + open_braces(s, i, c + 1) == 0,
        forall|k: int| i <= k <= c ==> depth + #[trigger] open_braces(s, i, k) >= 1,
    ensures
        parse_ts::closing_brace(s, i, depth) == Some(c),
    decreases c - i,
{
    assert(s[i] != '/');
    lemma_open_first(s, i, c + 1);
    let step: int = if s[i] == '{' {
        1
    } else if s[i] == '}' {
        -1
    } else {
        0
    };
    if i == c {
        assert(open_braces(s, i + 1, c + 1) == 0);
    } else {
        assert(depth + open_braces(s, i, i + 1) >= 1);
        assert(open_braces(s, i, i) == 0);
        assert(open_braces(s, i, i + 1) == step);
        assert forall|k: int| i + 1 <= k <= c implies depth + step + #[trigger] open_braces(
            s,
            i + 1,
            k,
        ) >= 1 by {
            lemma_open_first(s, i, k);
            assert(depth + open_braces(s, i, k) >= 1);
        }
        lemma_closing(s, i + 1, depth + step, c);
    }
}

/// The brace that closes another one is the first at which as many are closed
/// as are opened from there on, where the text between them has neither quotes
/// nor comments.
pub proof fn law_braces_match(s: Seq<char>, o: int, c: int)
    requires
        0 <= o < c < s.len(),
        s[o] == '{',
        s[c] == '}',
        is_bare(s, o, c + 1),
        open_braces(s, o, c + 1) == 0,
        forall|k: int| o < k <= c ==> #[trigger] open_braces(s, o, k) >= 1,
    ensures
        parse_ts::matching_brace(s, o) == Some(c),
{
    assert forall|k: int| o + 1 <= k <= c implies 1 + #[trigger] open_braces(s, o + 1, k) >= 1 by {
        lemma_open_first(s, o, k);
        assert(open_braces(s, o, k) >= 1);
    }
    lemma_open_first(s, o, c + 1);
    lemma_closing(s, o + 1, 1, c);
}

proof fn lemma_string_ends(s: Seq<char>, i: int, quote: char, e: int)
    requires
        0 <= i <= e < s.len(),
        s[e] == quote,
        quote != '\\',
        forall|k: int| i <= k < e ==> #[trigger] s[k] != quote && s[k] != '\\',
    ensures
        parse_ts::string_end(s, i, quote) == e + 1,
    decreases e - i,
{
    if i < e {
        assert(s[i] != quote);
        lemma_string_ends(s, i + 1, quote, e);
    }
}

/// A brace between quotes, or in a comment, neither opens nor closes: what
/// follows the string is looked through from its end on.
pub proof fn law_strings_are_skipped(s: Seq<char>, i: int, e: int, depth: int)
    requires
        0 <= i < e < s.len(),
        s[i] == '"' || s[i] == '\'' || s[i] == '`',
        s[e] == s[i],
        forall|k: int| i < k < e ==> #[trigger] s[k] != s[i] && s[k] != '\\',
    ensures
        parse_ts::closing_brace(s, i, depth) == parse_ts::closing_brace(s, e + 1, depth),
{
    lemma_string_ends(s, i + 1, s[i], e);
}

/// A character behind a backslash does not end a string.
pub proof fn law_escapes_are_skipped(s: Seq<char>, i: int, quote: char)
    requires
        0 <= i,
        i + 2 < s.len(),
        s[i] == '\\',
    ensures
        parse_ts::string_end(s, i, quote) == parse_ts::string_end(s, i + 2, quote),
{
}

proof fn lemma_line_ends(s: Seq<char>, i: int, e: int)
    requires
        0 <= i <= e <= s.len(),
        forall|k: int| i <= k < e ==> #[trigger] s[k] != '\n',
        e < s.len() ==> s[e] == '\n',
    ensures
        parse_ts::line_end(s, i) == e,
    decreases e - i,
{
    if i < e {
        assert(s[i] != '\n');
        lemma_line_ends(s, i + 1, e);
    }
}

/// A comment that starts with two slashes reaches to the end of its line, and
/// braces in it do not count.
pub proof fn law_line_comments_are_skipped(s: Seq<char>, i: int, e: int, depth: int)
    requires
        0 <= i,
        i + 2 <= e < s.len(),
        s[i] == '/',
        s[i + 1] == '/',
        s[e] == '\n',
        forall|k: int| i + 2 <= k < e ==> #[trigger] s[k] != '\n',
    ensures
        parse_ts::closing_brace(s, i, depth) == parse_ts::closing_brace(s, e, depth),
        parse_ts::first_brace(s, i) == parse_ts::first_brace(s, e),
{
    lemma_line_ends(s, i + 2, e);
}

proof fn lemma_block_ends(s: Seq<char>, i: int, e: int)
    requires
        0 <= i <= e,
        e + 1 < s.len(),
        s[e] == '*',
        s[e + 1] == '/',
        forall|k: int| i <= k < e ==> !(#[trigger] s[k] == '*' && s[k + 1] == '/'),
    ensures
        parse_ts::block_end(s, i) == e + 2,
    decreases e - i,
{
    if i < e {
        assert(!(s[i] == '*' && s[i + 1] == '/'));
        lemma_block_ends(s, i + 1, e);
    }
}

/// A comment that starts with a slash and a star reaches to the first star and
/// slash behind it, and braces in it do not count.
pub proof fn law_block_comments_are_skipped(s: Seq<char>, i: int, e: int, depth: int)
    requires
        0 <= i,
        i + 2 <= e,
        e + 1 < s.len(),
        s[i] == '/',
        s[i + 1] == '*',
        s[e] == '*',
        s[e + 1] == '/',
        forall|k: int| i + 2 <= k < e ==> !(#[trigger] s[k] == '*' && s[k + 1] == '/'),
    ensures
        parse_ts::closing_brace(s, i, depth) == parse_ts::closing_brace(s, e + 2, depth),
        parse_ts::first_brace(s, i) == parse_ts::first_brace(s, e + 2),
{
    lemma_block_ends(s, i + 2, e);
}

proof fn lemma_first_brace(s: Seq<char>, i: int, o: int)
    requires
        0 <= i <= o < s.len(),
        s[o] == '{',
        forall|k: int| i <= k < o ==> #[trigger] s[k] != '{' && s[k] != '/',
    ensures
        parse_ts::first_brace(s, i) == Some(o),
    decreases o - i,
{
    if i < o {
        assert(s[i] != '{');
        lemma_first_brace(s, i + 1, o);
    }
}

/// The literal of a binding is what the first brace behind the first equals
/// sign behind its first declaration opens.
pub proof fn law_literal_of_a_binding(
    s: Seq<char>,
    binding: Seq<char>,
    start: int,
    eq: int,
    o: int,
    c: int,
)
    requires
        text::first_at(s, "export const "@ + binding, 0) == Some(start),
        0 <= start <= eq < o < s.len(),
        s[eq] == '=',
        forall|k: int| start <= k < eq ==> #[trigger] s[k] != '=',
        forall|k: int| eq < k < o ==> #[trigger] s[k] != '{' && s[k] != '/',
        s[o] == '{',
        parse_ts::matching_brace(s, o) == Some(c),
    ensures
        parse_ts::literal_span(s, binding) == Ok::<(int, int), parse_ts::ExtractErrorView>(
            (o, c + 1),
        ),
{
    text_laws::law_first_place(s, seq!['='], start);
    let at = text::first_at(s, seq!['='], start);
    assert(s.subrange(eq, eq + 1) =~= seq!['=']);
    assert(at is Some);
    let i = at.unwrap();
    if i < eq {
        assert(s.subrange(i, i + 1)[0] == s[i]);
    } else if eq < i {
        assert(s.subrange(eq, eq + 1) != seq!['=']);
    }
    lemma_first_brace(s, eq + 1, o);
}

proof fn lemma_only_closing(s: Seq<char>, i: int, depth: nat)
    requires
        0 <= i <= s.len(),
        forall|k: int| i <= k < s.len() ==> #[trigger] s[k] == '}',
    ensures
        parse_ts::deepest(s, i, depth) == depth,
    decreases s.len() - i,
{
    if i < s.len() {
        assert(s[i] == '}');
        lemma_only_closing(
            s,
            i + 1,
            if depth == 0 {
                0
            } else {
                (depth - 1) as nat
            },
        );
    }
}

proof fn lemma_opening(s: Seq<char>, i: int, k: int)
    requires
        0 <= i <= k <= s.len(),
        forall|j: int| i <= j < k ==> #[trigger] s[j] == '{',
        forall|j: int| k <= j < s.len() ==> #[trigger] s[j] == '}',
    ensures
        parse_ts::deepest(s, i, i as nat) == k,
    decreases k - i,
{
    if i < k {
        assert(s[i] == '{');
        lemma_opening(s, i + 1, k);
    } else {
        lemma_only_closing(s, i, i as nat);
    }
}

/// A literal nests as deep as the braces that are open at once.
pub proof fn law_braces_nest(open: nat, close: nat)
    ensures
        parse_ts::nesting(Seq::new(open, |i: int| '{') + Seq::new(close, |i: int| '}')) == open,
{
    lemma_opening(Seq::new(open, |i: int| '{') + Seq::new(close, |i: int| '}'), 0, open as int);
}

} // verus!
