//! One `key: value` entry of a dialect declaration.
use vstd::prelude::*;
use vstd::string::*;

use crate::error::{DialectError, ErrorView, Span};
use crate::grammar::{
    closes_raw, field, hashes_end, ident_end, is_ident_continue, is_ident_start, is_ws,
    lemma_literal, list_items, literal_end, prepend, quoted_body_end, raw_body_end, skip_ws,
    span, string_literal, token_end, token_span, values, FieldView, LocatedView,
};
use crate::escape::{plain_literal_value, raw_literal_value};
use crate::lexis::{is_xid_continue, is_xid_start};
use crate::text::same_text;

verus! {

/// One parsed entry: the name, or one of the three lists.
pub enum InputField {
    Name(String),
    Files(Vec<String>),
    Directories(Vec<String>),
    DirectoryEnvVars(Vec<(String, Span)>),
}

/// The characters of each string.
pub open spec fn strings(v: Seq<String>) -> Seq<Seq<char>> {
    v.map_values(|x: String| x@)
}

/// The characters of each located string, with its span.
pub open spec fn located(v: Seq<(String, Span)>) -> Seq<LocatedView> {
    v.map_values(|x: (String, Span)| (x.0@, x.1))
}

impl View for InputField {
    type V = FieldView;

    open spec fn view(&self) -> FieldView {
        match self {
            InputField::Name(x) => FieldView::Name(x@),
            InputField::Files(v) => FieldView::Files(strings(v@)),
            InputField::Directories(v) => FieldView::Directories(strings(v@)),
            InputField::DirectoryEnvVars(v) => FieldView::DirectoryEnvVars(located(v@)),
        }
    }
}

fn is_whitespace(c: char) -> (r: bool)
    ensures
        r == is_ws(c),
{
    c == ' ' || c == '\t' || c == '\n' || c == '\r'
}

pub(crate) fn is_identifier_start(c: char) -> (r: bool)
    ensures
        r == is_ident_start(c),
{
    c == '_' || is_xid_start(c)
}

pub(crate) fn is_identifier_continue(c: char) -> (r: bool)
    ensures
        r == is_ident_continue(c),
{
    is_xid_continue(c)
}

/// The first position at or after `i` that holds no whitespace.
pub(crate) fn skip_whitespace(s: &str, n: usize, i: usize) -> (r: usize)
    requires
        n == s@.len(),
        i <= n,
    ensures
        r == skip_ws(s@, i as int),
        i <= r <= n,
{
    let mut k = i;
    while k < n && is_whitespace(s.get_char(k))
        invariant
            i <= k <= n,
            n == s@.len(),
            skip_ws(s@, k as int) == skip_ws(s@, i as int),
        decreases n - k,
    {
        k = k + 1;
    }
    k
}

/// The first position at or after `i` that holds no identifier character.
pub(crate) fn identifier_end(s: &str, n: usize, i: usize) -> (r: usize)
    requires
        n == s@.len(),
        i <= n,
    ensures
        r == ident_end(s@, i as int),
        i <= r <= n,
{
    let mut k = i;
    while k < n && is_identifier_continue(s.get_char(k))
        invariant
            i <= k <= n,
            n == s@.len(),
            ident_end(s@, k as int) == ident_end(s@, i as int),
        decreases n - k,
    {
        k = k + 1;
    }
    k
}

/// The first position at or after `i` that holds a double quote not
/// escaped by a backslash, or where the text ends.
fn quoted_end(s: &str, n: usize, i: usize) -> (r: usize)
    requires
        n == s@.len(),
        i <= n,
    ensures
        r == quoted_body_end(s@, i as int),
{
    let mut k = i;
    loop
        invariant
            i <= k <= n,
            n == s@.len(),
            quoted_body_end(s@, k as int) == quoted_body_end(s@, i as int),
        decreases n - k,
    {
        if k >= n {
            return k;
        }
        let c = s.get_char(k);
        if c == '"' {
            return k;
        }
        if c != '\\' {
            k = k + 1;
        } else if k + 1 < n {
            k = k + 2;
        } else {
            return k;
        }
    }
}

/// The first position at or after `i` that holds no `#`.
fn hashes_to(s: &str, n: usize, i: usize) -> (r: usize)
    requires
        n == s@.len(),
        i <= n,
    ensures
        r == hashes_end(s@, i as int),
        i <= r <= n,
{
    let mut k = i;
    while k < n && s.get_char(k) == '#'
        invariant
            i <= k <= n,
            n == s@.len(),
            hashes_end(s@, k as int) == hashes_end(s@, i as int),
        decreases n - k,
    {
        k = k + 1;
    }
    k
}

/// Whether a double quote followed by `h` hashes stands at `p`.
fn closes_raw_at(s: &str, n: usize, p: usize, h: usize) -> (r: bool)
    requires
        n == s@.len(),
        p <= n,
    ensures
        r == closes_raw(s@, p as int, h as int),
{
    if !(p < n && h <= n - p - 1 && s.get_char(p) == '"') {
        return false;
    }
    let mut q = p + 1;
    while q < p + 1 + h
        invariant
            p + 1 <= q <= p + 1 + h,
            p + 1 + h <= n,
            n == s@.len(),
            s@[p as int] == '"',
            forall|t: int| p + 1 <= t < q ==> s@[t] == '#',
        decreases p + 1 + h - q,
    {
        if s.get_char(q) != '#' {
            return false;
        }
        q = q + 1;
    }
    true
}

/// The first position at or after `p` where a raw literal with `h` hashes
/// closes, or the end of the text.
fn raw_end(s: &str, n: usize, p: usize, h: usize) -> (r: usize)
    requires
        n == s@.len(),
        p <= n,
    ensures
        r == raw_body_end(s@, p as int, h as int),
        p <= r <= n,
{
    let mut k = p;
    loop
        invariant
            p <= k <= n,
            n == s@.len(),
            raw_body_end(s@, k as int, h as int) == raw_body_end(s@, p as int, h as int),
        decreases n - k,
    {
        if k >= n || closes_raw_at(s, n, k, h) {
            return k;
        }
        k = k + 1;
    }
}

/// The position after the string literal that starts at `i`, where one is
/// there.
fn literal_end_at(s: &str, n: usize, i: usize) -> (r: Option<usize>)
    requires
        n == s@.len(),
        i <= n,
    ensures
        r is None <==> literal_end(s@, i as int) is None,
        r matches Some(k) ==> literal_end(s@, i as int) == Some(k as int),
{
    if i < n && s.get_char(i) == '"' {
        let j = quoted_end(s, n, i + 1);
        if j < n && s.get_char(j) == '"' {
            Some(j + 1)
        } else {
            None
        }
    } else if i < n && s.get_char(i) == 'r' {
        let h = hashes_to(s, n, i + 1);
        let count = h - (i + 1);
        if h < n && s.get_char(h) == '"' {
            let p = raw_end(s, n, h + 1, count);
            if closes_raw_at(s, n, p, count) {
                Some(p + 1 + count)
            } else {
                None
            }
        } else {
            None
        }
    } else {
        None
    }
}

/// The string literal at `i`: its value and the position after it.
pub(crate) fn parse_string_literal(s: &str, n: usize, i: usize) -> (r: Option<(String, usize)>)
    requires
        n == s@.len(),
        i <= n,
    ensures
        r is None <==> string_literal(s@, i as int) is None,
        r matches Some((v, k)) ==> string_literal(s@, i as int) == Some((v@, k as int)),
{
    let k = match literal_end_at(s, n, i) {
        Some(k) => k,
        None => {
            return None;
        },
    };
    proof {
        lemma_literal(s@, i as int);
    }
    let value = if s.get_char(i) == '"' {
        plain_literal_value(s.substring_char(i + 1, k - 1))
    } else {
        let h = hashes_to(s, n, i + 1);
        let count = h - (i + 1);
        raw_literal_value(s.substring_char(h + 1, k - 1 - count))
    };
    match value {
        Some(v) => Some((v, k)),
        None => None,
    }
}

/// The span of the token at `i`, or the empty span at the end.
pub(crate) fn token_span_at(s: &str, n: usize, i: usize) -> (r: Span)
    requires
        n == s@.len(),
        i <= n,
    ensures
        r == token_span(s@, i as int),
{
    if i >= n {
        return Span { start: i, end: i };
    }
    proof {
        lemma_literal(s@, i as int);
    }
    let end = match literal_end_at(s, n, i) {
        Some(k) => k,
        None => {
            let c = s.get_char(i);
            if is_identifier_start(c) || is_identifier_continue(c) {
                identifier_end(s, n, i + 1)
            } else {
                i + 1
            }
        },
    };
    Span { start: i, end }
}

/// The items of a list whose opening bracket stands before `i`, and the
/// position after its closing bracket.
fn parse_list_items(s: &str, n: usize, i: usize) -> (r: Result<
    (Vec<(String, Span)>, usize),
    DialectError,
>)
    requires
        n == s@.len(),
        i <= n,
    ensures
        r matches Ok((items, k)) ==> list_items(s@, i as int) == Ok::<_, ErrorView>(
            (located(items@), k as int),
        ),
        r matches Err(e) ==> list_items(s@, i as int) == Err::<(Seq<LocatedView>, int), _>(e@),
{
    let mut items: Vec<(String, Span)> = Vec::new();
    let mut cur = i;
    loop
        invariant
            n == s@.len(),
            cur <= n,
            list_items(s@, i as int) == prepend(located(items@), list_items(s@, cur as int)),
        decreases n - cur,
    {
        let j = skip_whitespace(s, n, cur);
        if j < n && s.get_char(j) == ']' {
            assert(located(items@) + seq![] =~= located(items@));
            return Ok((items, j + 1));
        }
        let (v, k) = match parse_string_literal(s, n, j) {
            Some(lit) => lit,
            None => {
                return Err(DialectError::MalformedList { location: token_span_at(s, n, j) });
            },
        };
        proof {
            lemma_literal(s@, j as int);
        }
        let ghost before = located(items@);
        let sp = Span { start: j, end: k };
        items.push((v, sp));
        assert(located(items@) =~= before + seq![(v@, span(j as int, k as int))]);
        let c = skip_whitespace(s, n, k);
        if c < n && s.get_char(c) == ']' {
            return Ok((items, c + 1));
        } else if c < n && s.get_char(c) == ',' {
            proof {
                let one = seq![(v@, span(j as int, k as int))];
                match list_items(s@, c + 1) {
                    Ok((x, e)) => {
                        assert(before + (one + x) =~= (before + one) + x);
                    },
                    Err(_) => {},
                }
            }
            cur = c + 1;
        } else {
            return Err(DialectError::MalformedList { location: token_span_at(s, n, c) });
        }
    }
}

/// The contents of located strings, without their spans.
fn values_of(items: &Vec<(String, Span)>) -> (r: Vec<String>)
    ensures
        strings(r@) == values(located(items@)),
{
    let mut out: Vec<String> = Vec::new();
    let mut k: usize = 0;
    while k < items.len()
        invariant
            k <= items@.len(),
            strings(out@) =~= values(located(items@)).subrange(0, k as int),
        decreases items@.len() - k,
    {
        let ghost before = strings(out@);
        out.push(items[k].0.clone());
        assert(strings(out@) =~= before + seq![items@[k as int].0@]);
        k = k + 1;
    }
    assert(values(located(items@)).subrange(0, k as int) =~= values(located(items@)));
    out
}

impl InputField {
    /// Parses the entry that starts at character `j` of `s`; returns it with
    /// the position after it.
    ///
    /// A key outside `name`, `files`, `include_directories` and
    /// `include_directory_env_vars` fails with `UnknownField`, blamed on the
    /// key.
    pub fn parse(s: &str, j: usize) -> (r: Result<(InputField, usize), DialectError>)
        requires
            j <= s@.len(),
        ensures
            r matches Ok((f, k)) ==> field(s@, j as int) == Ok::<_, ErrorView>((f@, k as int)),
            r matches Err(e) ==> field(s@, j as int) == Err::<(FieldView, int), _>(e@),
    {
        let n = s.unicode_len();
        if !(j < n && is_identifier_start(s.get_char(j))) {
            return Err(DialectError::UnexpectedToken { location: token_span_at(s, n, j) });
        }
        let e = identifier_end(s, n, j + 1);
        let key = s.substring_char(j, e);
        let is_name = same_text(key, "name");
        let is_files = same_text(key, "files");
        let is_directories = same_text(key, "include_directories");
        let is_env_vars = same_text(key, "include_directory_env_vars");
        if !(is_name || is_files || is_directories || is_env_vars) {
            return Err(
                DialectError::UnknownField { key: key.to_owned(), location: Span { start: j, end: e } },
            );
        }
        let c = skip_whitespace(s, n, e);
        if !(c < n && s.get_char(c) == ':') {
            return Err(DialectError::UnexpectedToken { location: token_span_at(s, n, c) });
        }
        let v = skip_whitespace(s, n, c + 1);
        if is_name {
            return match parse_string_literal(s, n, v) {
                None => Err(DialectError::MalformedScalar { location: token_span_at(s, n, v) }),
                Some((x, k)) => if x.as_str().is_empty() {
                    Err(DialectError::MalformedScalar { location: Span { start: v, end: k } })
                } else {
                    Ok((InputField::Name(x), k))
                },
            };
        }
        if !(v < n && s.get_char(v) == '[') {
            return Err(DialectError::MalformedList { location: token_span_at(s, n, v) });
        }
        let (items, k) = match parse_list_items(s, n, v + 1) {
            Ok(r) => r,
            Err(err) => {
                return Err(err);
            },
        };
        if is_files {
            Ok((InputField::Files(values_of(&items)), k))
        } else if is_directories {
            Ok((InputField::Directories(values_of(&items)), k))
        } else {
            Ok((InputField::DirectoryEnvVars(items), k))
        }
    }
}

} // verus!
