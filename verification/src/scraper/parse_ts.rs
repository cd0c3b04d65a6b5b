//! Finding `export const X = { ... }` object literals in TypeScript sources
//! and reading them as JSON5.

use crate::text;
use crate::text::{chars_of, find_part, string_from};
use vstd::prelude::*;
use vstd::string::*;

verus! {

/// Where a line comment that reaches position `i` ends: at the end of its
/// line.
pub open spec fn line_end(s: Seq<char>, i: int) -> int
    decreases s.len() - i,
{
    if i < 0 || i >= s.len() || s[i] == '\n' {
        i
    } else {
        line_end(s, i + 1)
    }
}

/// Where a block comment whose inside reaches position `i` ends: behind its
/// closing mark, or at the end of the text where there is none.
pub open spec fn block_end(s: Seq<char>, i: int) -> int
    decreases s.len() - i,
{
    if i < 0 || i + 1 >= s.len() {
        s.len() as int
    } else if s[i] == '*' && s[i + 1] == '/' {
        i + 2
    } else {
        block_end(s, i + 1)
    }
}

/// Where a string quoted by `quote` whose inside reaches position `i` ends:
/// behind its closing quote, or at the end of the text. A backslash takes the
/// next character with it.
pub open spec fn string_end(s: Seq<char>, i: int, quote: char) -> int
    decreases s.len() - i,
{
    if i < 0 || i >= s.len() {
        s.len() as int
    } else if s[i] == '\\' {
        if i + 2 >= s.len() {
            s.len() as int
        } else {
            string_end(s, i + 2, quote)
        }
    } else if s[i] == quote {
        i + 1
    } else {
        string_end(s, i + 1, quote)
    }
}

/// Whether two slashes stand at `i`.
pub open spec fn line_comment_at(s: Seq<char>, i: int) -> bool {
    i + 1 < s.len() && s[i] == '/' && s[i + 1] == '/'
}

/// Whether a slash and a star stand at `i`.
pub open spec fn block_comment_at(s: Seq<char>, i: int) -> bool {
    i + 1 < s.len() && s[i] == '/' && s[i + 1] == '*'
}

/// A line comment ends within the text, not before where its end is looked
/// for.
pub proof fn lemma_line_end(s: Seq<char>, i: int)
    requires
        0 <= i <= s.len(),
    ensures
        i <= line_end(s, i) <= s.len(),
    decreases s.len() - i,
{
    if i < s.len() && s[i] != '\n' {
        lemma_line_end(s, i + 1);
    }
}

/// A block comment ends within the text, not before where its end is looked
/// for.
pub proof fn lemma_block_end(s: Seq<char>, i: int)
    requires
        0 <= i <= s.len(),
    ensures
        i <= block_end(s, i) <= s.len(),
    decreases s.len() - i,
{
    if i + 1 < s.len() && !(s[i] == '*' && s[i + 1] == '/') {
        lemma_block_end(s, i + 1);
    }
}

/// A string ends within the text, not before where its end is looked for.
pub proof fn lemma_string_end(s: Seq<char>, i: int, quote: char)
    requires
        0 <= i <= s.len(),
    ensures
        i <= string_end(s, i, quote) <= s.len(),
    decreases s.len() - i,
{
    if i < s.len() {
        if s[i] == '\\' {
            if i + 2 < s.len() {
                lemma_string_end(s, i + 2, quote);
            }
        } else if s[i] != quote {
            lemma_string_end(s, i + 1, quote);
        }
    }
}

/// The first opening brace from `i` on that stands in no comment.
pub open spec fn first_brace(s: Seq<char>, i: int) -> Option<int>
    decreases s.len() - i,
{
    if i < 0 || i >= s.len() {
        None
    } else if s[i] == '{' {
        Some(i)
    } else if line_comment_at(s, i) {
        proof {
            lemma_line_end(s, i + 2);
        }
        first_brace(s, line_end(s, i + 2))
    } else if block_comment_at(s, i) {
        proof {
            lemma_block_end(s, i + 2);
        }
        first_brace(s, block_end(s, i + 2))
    } else {
        first_brace(s, i + 1)
    }
}

/// The closing brace that ends `depth` open ones, from `i` on. Braces in
/// strings and comments do not count.
pub open spec fn closing_brace(s: Seq<char>, i: int, depth: int) -> Option<int>
    decreases s.len() - i,
{
    if i < 0 || i >= s.len() {
        None
    } else if s[i] == '{' {
        closing_brace(s, i + 1, depth + 1)
    } else if s[i] == '}' {
        if depth == 1 {
            Some(i)
        } else {
            closing_brace(s, i + 1, depth - 1)
        }
    } else if line_comment_at(s, i) {
        proof {
            lemma_line_end(s, i + 2);
        }
        closing_brace(s, line_end(s, i + 2), depth)
    } else if block_comment_at(s, i) {
        proof {
            lemma_block_end(s, i + 2);
        }
        closing_brace(s, block_end(s, i + 2), depth)
    } else if s[i] == '"' || s[i] == '\'' || s[i] == '`' {
        proof {
            lemma_string_end(s, i + 1, s[i]);
        }
        closing_brace(s, string_end(s, i + 1, s[i]), depth)
    } else {
        closing_brace(s, i + 1, depth)
    }
}

fn peek_eq(s: &[char], i: usize, expected: char) -> (r: bool)
    ensures
        r == (i < s@.len() && s@[i as int] == expected),
{
    i < s.len() && s[i] == expected
}

fn skip_line_comment(s: &[char], at: usize) -> (r: usize)
    requires
        at <= s@.len(),
    ensures
        r == line_end(s@, at as int),
        at <= r <= s@.len(),
{
    let mut i: usize = at;
    while i < s.len() && s[i] != '\n'
        invariant
            at <= i <= s@.len(),
            line_end(s@, at as int) == line_end(s@, i as int),
        decreases s@.len() - i,
    {
        i += 1;
    }
    i
}

fn skip_block_comment(s: &[char], at: usize) -> (r: usize)
    requires
        block_comment_at(s@, at as int),
    ensures
        r == block_end(s@, at + 2),
        at < r <= s@.len(),
{
    let n: usize = s.len();
    let mut i: usize = at + 2;
    while n - i > 1 && !(s[i] == '*' && s[i + 1] == '/')
        invariant
            n == s@.len(),
            at + 2 <= i <= n,
            block_end(s@, at + 2) == block_end(s@, i as int),
        decreases n - i,
    {
        i += 1;
    }
    if n - i >= 2 {
        i + 2
    } else {
        n
    }
}

fn skip_string(s: &[char], at: usize, quote: char) -> (r: usize)
    requires
        at < s@.len(),
    ensures
        r == string_end(s@, at + 1, quote),
        at < r <= s@.len(),
{
    let n: usize = s.len();
    let mut i: usize = at + 1;
    while i < n
        invariant
            n == s@.len(),
            at < i <= n,
            string_end(s@, at + 1, quote) == string_end(s@, i as int, quote),
        decreases n - i,
    {
        if s[i] == '\\' {
            if n - i <= 2 {
                return n;
            }
            i += 2;
        } else if s[i] == quote {
            return i + 1;
        } else {
            i += 1;
        }
    }
    n
}

/// The first opening brace from `from` on that stands in no comment.
pub fn find_first_brace(s: &[char], from: usize) -> (r: Option<usize>)
    ensures
        match r {
            Some(i) => {
                &&& first_brace(s@, from as int) == Some(i as int)
                &&& from <= i < s@.len()
                &&& s@[i as int] == '{'
            },
            None => first_brace(s@, from as int) is None,
        },
{
    let n: usize = s.len();
    let mut i: usize = from;
    while i < n
        invariant
            n == s@.len(),
            from <= i,
            first_brace(s@, from as int) == first_brace(s@, i as int),
        decreases n - i,
    {
        if s[i] == '{' {
            return Some(i);
        }
        if s[i] == '/' && peek_eq(s, i + 1, '/') {
            i = skip_line_comment(s, i + 2);
        } else if s[i] == '/' && peek_eq(s, i + 1, '*') {
            i = skip_block_comment(s, i);
        } else {
            i += 1;
        }
    }
    None
}

/// The closing brace that matches the opening one at `open_at`; nothing where
/// none stands there.
pub open spec fn matching_brace(s: Seq<char>, open_at: int) -> Option<int> {
    if 0 <= open_at < s.len() && s[open_at] == '{' {
        closing_brace(s, open_at, 0)
    } else {
        None
    }
}

/// The closing brace that matches the opening one at `open_at`; nothing where
/// none stands there, or where it is never closed.
pub fn find_matching_brace(s: &[char], open_at: usize) -> (r: Option<usize>)
    ensures
        match r {
            Some(i) => {
                &&& matching_brace(s@, open_at as int) == Some(i as int)
                &&& open_at < i < s@.len()
                &&& s@[i as int] == '}'
            },
            None => matching_brace(s@, open_at as int) is None,
        },
{
    let n: usize = s.len();
    if open_at >= n || s[open_at] != '{' {
        return None;
    }
    let mut depth: usize = 0;
    let mut i: usize = open_at;
    while i < n
        invariant
            n == s@.len(),
            open_at <= i <= n,
            s@[open_at as int] == '{',
            i == open_at ==> depth == 0,
            i > open_at ==> depth >= 1,
            depth <= i - open_at,
            closing_brace(s@, open_at as int, 0) == closing_brace(s@, i as int, depth as int),
        decreases n - i,
    {
        let c: char = s[i];
        if c == '{' {
            depth += 1;
            i += 1;
        } else if c == '}' {
            if depth == 1 {
                return Some(i);
            }
            depth -= 1;
            i += 1;
        } else if c == '/' && peek_eq(s, i + 1, '/') {
            i = skip_line_comment(s, i + 2);
        } else if c == '/' && peek_eq(s, i + 1, '*') {
            i = skip_block_comment(s, i);
        } else if c == '"' || c == '\'' || c == '`' {
            i = skip_string(s, i, c);
        } else {
            i += 1;
        }
    }
    None
}

/// Why an object literal could not be extracted.
#[derive(Debug)]
pub enum ExtractError {
    /// The binding is not exported.
    MissingBinding,
    /// No `=` behind the binding.
    MissingEquals,
    /// No opening brace behind the `=`.
    MissingBrace,
    /// The opening brace is never closed.
    Unbalanced,
    /// Objects and arrays are nested too deeply to be read.
    TooDeep,
    /// The literal is no JSON5; what the parser said of it.
    Json5(String),
}

/// What an [`ExtractError`] says.
#[verifier::ext_equal]
pub enum ExtractErrorView {
    MissingBinding,
    MissingEquals,
    MissingBrace,
    Unbalanced,
    TooDeep,
    Json5(Seq<char>),
}

impl View for ExtractError {
    type V = ExtractErrorView;

    open spec fn view(&self) -> ExtractErrorView {
        match *self {
            ExtractError::MissingBinding => ExtractErrorView::MissingBinding,
            ExtractError::MissingEquals => ExtractErrorView::MissingEquals,
            ExtractError::MissingBrace => ExtractErrorView::MissingBrace,
            ExtractError::Unbalanced => ExtractErrorView::Unbalanced,
            ExtractError::TooDeep => ExtractErrorView::TooDeep,
            ExtractError::Json5(m) => ExtractErrorView::Json5(m@),
        }
    }
}

impl ExtractErrorView {
    /// What to tell the user of a failure to extract `binding`.
    pub open spec fn text(self, binding: Seq<char>) -> Seq<char> {
        match self {
            ExtractErrorView::MissingBinding => "could not find `export const "@ + binding
                + "` in source"@,
            ExtractErrorView::MissingEquals => "no `=` after `export const "@ + binding + "`"@,
            ExtractErrorView::MissingBrace => "no opening `{` after `export const "@ + binding
                + " =`"@,
            ExtractErrorView::Unbalanced => "unbalanced braces in `"@ + binding + "` literal"@,
            ExtractErrorView::TooDeep => "too many levels in `"@ + binding + "` literal"@,
            ExtractErrorView::Json5(_) => "json5 parse failed for `"@ + binding + "`"@,
        }
    }
}

impl ExtractError {
    /// What to tell the user of a failure to extract `binding`.
    pub fn message(&self, binding: &str) -> (r: String)
        ensures
            r@ == self@.text(binding@),
    {
        let (before, after): (&str, &str) = match self {
            ExtractError::MissingBinding => ("could not find `export const ", "` in source"),
            ExtractError::MissingEquals => ("no `=` after `export const ", "`"),
            ExtractError::MissingBrace => ("no opening `{` after `export const ", " =`"),
            ExtractError::Unbalanced => ("unbalanced braces in `", "` literal"),
            ExtractError::TooDeep => ("too many levels in `", "` literal"),
            ExtractError::Json5(_) => ("json5 parse failed for `", "`"),
        };
        let mut r: String = before.to_owned();
        r.append(binding);
        r.append(after);
        r
    }
}

/// Where the object literal assigned to `binding` stands: from its opening
/// brace up to and with its closing one.
pub open spec fn literal_span(s: Seq<char>, binding: Seq<char>) -> Result<
    (int, int),
    ExtractErrorView,
> {
    match text::first_at(s, "export const "@ + binding, 0) {
        None => Err(ExtractErrorView::MissingBinding),
        Some(start) => match text::first_at(s, seq!['='], start) {
            None => Err(ExtractErrorView::MissingEquals),
            Some(eq) => match first_brace(s, eq + 1) {
                None => Err(ExtractErrorView::MissingBrace),
                Some(open) => match matching_brace(s, open) {
                    None => Err(ExtractErrorView::Unbalanced),
                    Some(close) => Ok((open, close + 1)),
                },
            },
        },
    }
}

/// The object literal assigned to `binding` in a source, as it stands there.
/// Type annotations and trailing clauses are left aside.
pub fn extract_literal(source: &str, binding: &str) -> (r: Result<String, ExtractError>)
    ensures
        match r {
            Ok(t) => literal_span(source@, binding@) matches Ok(span) && 0 <= span.0 < span.1
                <= source@.len() && t@ == source@.subrange(span.0, span.1),
            Err(e) => literal_span(source@, binding@) == Err::<(int, int), ExtractErrorView>(e@),
        },
{
    let s: Vec<char> = chars_of(source);
    let n: usize = s.len();
    let mut marker_text: String = "export const ".to_owned();
    marker_text.append(binding);
    let marker: Vec<char> = chars_of(marker_text.as_str());
    let start: usize = match find_part(s.as_slice(), marker.as_slice(), 0) {
        Some(i) => i,
        None => {
            return Err(ExtractError::MissingBinding);
        },
    };
    let equals: [char; 1] = ['='];
    assert(equals@ =~= seq!['=']);
    let eq: usize = match find_part(s.as_slice(), &equals, start) {
        Some(i) => i,
        None => {
            return Err(ExtractError::MissingEquals);
        },
    };
    assert(eq + 1 <= n);
    let open: usize = match find_first_brace(s.as_slice(), eq + 1) {
        Some(i) => i,
        None => {
            return Err(ExtractError::MissingBrace);
        },
    };
    match find_matching_brace(s.as_slice(), open) {
        Some(close) => Ok(string_from(s.as_slice(), open, close + 1)),
        None => Err(ExtractError::Unbalanced),
    }
}

/// How deep the objects and arrays of a literal may be nested.
pub const MAX_NESTING: usize = 128;

/// Whether a character ends a line of JSON5.
pub open spec fn ends_line(c: char) -> bool {
    c == '\n' || c == '\r' || c == '\u{2028}' || c == '\u{2029}'
}

/// Where a line comment of JSON5 that reaches position `i` ends.
pub open spec fn line_stop(s: Seq<char>, i: int) -> int
    decreases s.len() - i,
{
    if i < 0 || i >= s.len() || ends_line(s[i]) {
        i
    } else {
        line_stop(s, i + 1)
    }
}

/// A line comment ends within the text, not before where its end is looked
/// for.
pub proof fn lemma_line_stop(s: Seq<char>, i: int)
    requires
        0 <= i <= s.len(),
    ensures
        i <= line_stop(s, i) <= s.len(),
    decreases s.len() - i,
{
    if i < s.len() && !ends_line(s[i]) {
        lemma_line_stop(s, i + 1);
    }
}

/// How many objects and arrays of JSON5 are open at once at most, from `i` on,
/// where `depth` are open there. Brackets in strings and comments do not count.
pub open spec fn deepest(s: Seq<char>, i: int, depth: nat) -> nat
    decreases s.len() - i,
{
    if i < 0 || i >= s.len() {
        depth
    } else if s[i] == '{' || s[i] == '[' {
        deepest(s, i + 1, depth + 1)
    } else if s[i] == '}' || s[i] == ']' {
        let rest = deepest(
            s,
            i + 1,
            if depth == 0 {
                0
            } else {
                (depth - 1) as nat
            },
        );
        if rest < depth {
            depth
        } else {
            rest
        }
    } else if line_comment_at(s, i) {
        proof {
            lemma_line_stop(s, i + 2);
        }
        deepest(s, line_stop(s, i + 2), depth)
    } else if block_comment_at(s, i) {
        proof {
            lemma_block_end(s, i + 2);
        }
        deepest(s, block_end(s, i + 2), depth)
    } else if s[i] == '"' || s[i] == '\'' {
        proof {
            lemma_string_end(s, i + 1, s[i]);
        }
        deepest(s, string_end(s, i + 1, s[i]), depth)
    } else {
        deepest(s, i + 1, depth)
    }
}

/// How deep the objects and arrays of a text of JSON5 are nested.
pub open spec fn nesting(s: Seq<char>) -> nat {
    deepest(s, 0, 0)
}

fn skip_line(s: &[char], at: usize) -> (r: usize)
    requires
        at <= s@.len(),
    ensures
        r == line_stop(s@, at as int),
        at <= r <= s@.len(),
{
    let mut i: usize = at;
    while i < s.len() && !(s[i] == '\n' || s[i] == '\r' || s[i] == '\u{2028}' || s[i]
        == '\u{2029}')
        invariant
            at <= i <= s@.len(),
            line_stop(s@, at as int) == line_stop(s@, i as int),
        decreases s@.len() - i,
    {
        i += 1;
    }
    i
}

/// How deep the objects and arrays of a text of JSON5 are nested.
pub fn nesting_of(text: &str) -> (r: usize)
    ensures
        r == nesting(text@),
{
    let chars: Vec<char> = chars_of(text);
    let s: &[char] = chars.as_slice();
    let n: usize = s.len();
    let mut best: usize = 0;
    let mut depth: usize = 0;
    let mut i: usize = 0;
    while i < n
        invariant
            n == s@.len(),
            i <= n,
            depth <= i,
            best <= i,
            nesting(s@) == if deepest(s@, i as int, depth as nat) < best {
                best as nat
            } else {
                deepest(s@, i as int, depth as nat)
            },
        decreases n - i,
    {
        let c: char = s[i];
        if c == '{' || c == '[' {
            depth += 1;
            i += 1;
        } else if c == '}' || c == ']' {
            if best < depth {
                best = depth;
            }
            if depth > 0 {
                depth -= 1;
            }
            i += 1;
        } else if c == '/' && peek_eq(s, i + 1, '/') {
            i = skip_line(s, i + 2);
        } else if c == '/' && peek_eq(s, i + 1, '*') {
            i = skip_block_comment(s, i);
        } else if c == '"' || c == '\'' {
            i = skip_string(s, i, c);
        } else {
            i += 1;
        }
    }
    if best < depth {
        depth
    } else {
        best
    }
}

/// Whether reading a text as JSON5 may give this: the same value written as
/// JSON, or what the parser says of the text.
pub uninterp spec fn json5_may_give(text: Seq<char>, out: Result<Seq<char>, Seq<char>>) -> bool;

/// `json5::from_str` into a `serde_json::Value`, which is handed on as its
/// JSON text; the error is handed on as its message. The parser gives up where
/// the stack of the thread runs short or a limit of the process is reached, so
/// what it gives is one of what it may give for the text. It recurses into
/// objects and arrays, and so does what follows it; hence the bound.
#[verifier::external_body]
fn read_json5(text: &str) -> (r: Result<String, String>)
    requires
        nesting(text@) <= MAX_NESTING,
    ensures
        match r {
            Ok(json) => json5_may_give(text@, Ok(json@)),
            Err(e) => json5_may_give(text@, Err(e@)),
        },
{
    match json5::from_str::<serde_json::Value>(text) {
        Ok(value) => Ok(value.to_string()),
        Err(e) => Err(e.to_string()),
    }
}

/// What reading a literal comes to, by what the parser gave.
pub fn parsed_literal(read: Result<String, String>) -> (r: Result<String, ExtractError>)
    ensures
        match read {
            Ok(json) => r matches Ok(t) && t@ == json@,
            Err(m) => r matches Err(e) && e@ == ExtractErrorView::Json5(m@),
        },
{
    match read {
        Ok(json) => Ok(json),
        Err(m) => Err(ExtractError::Json5(m)),
    }
}

/// Whether extracting the literal of `binding` may give this: what keeps it
/// from being read, where anything does, and otherwise what the JSON5 parser
/// may make of it.
pub open spec fn extract_may_give(
    s: Seq<char>,
    binding: Seq<char>,
    out: Result<Seq<char>, ExtractErrorView>,
) -> bool {
    match literal_span(s, binding) {
        Err(e) => out == Err::<Seq<char>, ExtractErrorView>(e),
        Ok(span) => {
            let literal = s.subrange(span.0, span.1);
            if nesting(literal) > MAX_NESTING {
                out == Err::<Seq<char>, ExtractErrorView>(ExtractErrorView::TooDeep)
            } else {
                match out {
                    Ok(json) => json5_may_give(literal, Ok(json)),
                    Err(ExtractErrorView::Json5(m)) => json5_may_give(literal, Err(m)),
                    Err(_) => false,
                }
            }
        },
    }
}

/// The value of the object literal assigned to `binding` in a source, as JSON
/// text.
pub fn extract_object(source: &str, binding: &str) -> (r: Result<String, ExtractError>)
    ensures
        match r {
            Ok(json) => extract_may_give(source@, binding@, Ok(json@)),
            Err(e) => extract_may_give(source@, binding@, Err(e@)),
        },
{
    let literal: String = match extract_literal(source, binding) {
        Err(e) => {
            return Err(e);
        },
        Ok(t) => t,
    };
    if nesting_of(literal.as_str()) > MAX_NESTING {
        return Err(ExtractError::TooDeep);
    }
    parsed_literal(read_json5(literal.as_str()))
}

/// What is extracted starts with an opening brace and ends with a closing
/// one, and lies behind the binding.
pub proof fn law_literal_is_braced(s: Seq<char>, binding: Seq<char>)
    ensures
        match literal_span(s, binding) {
            Ok(span) => {
                &&& 0 <= span.0
                &&& span.0 + 1 < span.1 <= s.len()
                &&& s[span.0] == '{'
                &&& s[span.1 - 1] == '}'
            },
            Err(_) => true,
        },
{
    match text::first_at(s, "export const "@ + binding, 0) {
        None => {},
        Some(start) => {
            lemma_first_at(s, "export const "@ + binding, 0);
            lemma_first_at(s, seq!['='], start);
            match text::first_at(s, seq!['='], start) {
                None => {},
                Some(eq) => {
                    lemma_first_brace(s, eq + 1);
                    match first_brace(s, eq + 1) {
                        None => {},
                        Some(open) => {
                            lemma_closing_brace(s, open + 1, 1);
                        },
                    }
                },
            }
        },
    }
}

proof fn lemma_first_at(s: Seq<char>, part: Seq<char>, from: int)
    ensures
        match text::first_at(s, part, from) {
            Some(i) => 0 <= i && from <= i && text::holds_at(s, part, i),
            None => true,
        },
    decreases s.len() - part.len() - from + 1,
{
    if 0 <= from && from + part.len() <= s.len() && !text::holds_at(s, part, from) {
        lemma_first_at(s, part, from + 1);
    }
}

proof fn lemma_first_brace(s: Seq<char>, i: int)
    requires
        0 <= i,
    ensures
        match first_brace(s, i) {
            Some(k) => i <= k < s.len() && s[k] == '{',
            None => true,
        },
    decreases s.len() - i,
{
    if i < s.len() && s[i] != '{' {
        if line_comment_at(s, i) {
            lemma_line_end(s, i + 2);
            lemma_first_brace(s, line_end(s, i + 2));
        } else if block_comment_at(s, i) {
            lemma_block_end(s, i + 2);
            lemma_first_brace(s, block_end(s, i + 2));
        } else {
            lemma_first_brace(s, i + 1);
        }
    }
}

proof fn lemma_closing_brace(s: Seq<char>, i: int, depth: int)
    requires
        0 <= i,
    ensures
        match closing_brace(s, i, depth) {
            Some(k) => i <= k < s.len() && s[k] == '}',
            None => true,
        },
    decreases s.len() - i,
{
    if i < s.len() {
        if s[i] == '{' {
            lemma_closing_brace(s, i + 1, depth + 1);
        } else if s[i] == '}' {
            if depth != 1 {
                lemma_closing_brace(s, i + 1, depth - 1);
            }
        } else if line_comment_at(s, i) {
            lemma_line_end(s, i + 2);
            lemma_closing_brace(s, line_end(s, i + 2), depth);
        } else if block_comment_at(s, i) {
            lemma_block_end(s, i + 2);
            lemma_closing_brace(s, block_end(s, i + 2), depth);
        } else if s[i] == '"' || s[i] == '\'' || s[i] == '`' {
            lemma_string_end(s, i + 1, s[i]);
            lemma_closing_brace(s, string_end(s, i + 1, s[i]), depth);
        } else {
            lemma_closing_brace(s, i + 1, depth);
        }
    }
}

} // verus!
