//! The grammar of a dialect declaration, as functions on its characters.
//!
//! A declaration is a comma-separated sequence of entries (a trailing comma
//! is allowed). Each entry is `key: value`. The key `name` takes a string
//! literal; `files`, `include_directories` and `include_directory_env_vars`
//! take a bracketed, comma-separated list of string literals (empty, or with a
//! trailing comma). Keys and identifiers follow Rust's identifier rules; a
//! string literal is a Rust string literal, plain or raw, and stands for its
//! value with escapes resolved. The name may not be empty. Whitespace may
//! stand between any two tokens.
use vstd::prelude::*;

use crate::error::{ErrorView, Span};
use crate::escape::{plain_value, raw_value};
use crate::lexis::{xid_continue, xid_start};

verus! {

pub open spec fn is_ws(c: char) -> bool {
    c == ' ' || c == '\t' || c == '\n' || c == '\r'
}

pub open spec fn is_ident_start(c: char) -> bool {
    xid_start(c) || c == '_'
}

pub open spec fn is_ident_continue(c: char) -> bool {
    xid_continue(c)
}

/// The first position at or after `i` that holds no whitespace.
pub open spec fn skip_ws(s: Seq<char>, i: int) -> int
    decreases s.len() - i,
{
    if 0 <= i < s.len() && is_ws(s[i]) {
        skip_ws(s, i + 1)
    } else {
        i
    }
}

/// The first position at or after `i` that holds no identifier character.
pub open spec fn ident_end(s: Seq<char>, i: int) -> int
    decreases s.len() - i,
{
    if 0 <= i < s.len() && is_ident_continue(s[i]) {
        ident_end(s, i + 1)
    } else {
        i
    }
}

/// The first position at or after `i` that holds a double quote not
/// escaped by a backslash, or where the text ends.
pub open spec fn quoted_body_end(s: Seq<char>, i: int) -> int
    decreases s.len() - i,
{
    if 0 <= i < s.len() && s[i] != '"' {
        if s[i] != '\\' {
            quoted_body_end(s, i + 1)
        } else if i + 1 < s.len() {
            quoted_body_end(s, i + 2)
        } else {
            i
        }
    } else {
        i
    }
}

/// The first position at or after `i` that holds no `#`.
pub open spec fn hashes_end(s: Seq<char>, i: int) -> int
    decreases s.len() - i,
{
    if 0 <= i < s.len() && s[i] == '#' {
        hashes_end(s, i + 1)
    } else {
        i
    }
}

/// Whether a double quote followed by `n` hashes stands at `p`.
pub open spec fn closes_raw(s: Seq<char>, p: int, n: int) -> bool {
    0 <= p && p + 1 + n <= s.len() && s[p] == '"' && forall|q: int|
        p + 1 <= q < p + 1 + n ==> s[q] == '#'
}

/// The first position at or after `p` where a raw literal with `n` hashes
/// closes, or the end of the text.
pub open spec fn raw_body_end(s: Seq<char>, p: int, n: int) -> int
    decreases s.len() - p,
{
    if 0 <= p < s.len() && !closes_raw(s, p, n) {
        raw_body_end(s, p + 1, n)
    } else {
        p
    }
}

/// The position after the string literal that starts at `i`, plain
/// (`"..."`) or raw (`r"..."`, `r#"..."#`, ...), where one is there.
pub open spec fn literal_end(s: Seq<char>, i: int) -> Option<int> {
    if 0 <= i < s.len() && s[i] == '"' {
        let j = quoted_body_end(s, i + 1);
        if j < s.len() && s[j] == '"' {
            Some(j + 1)
        } else {
            None
        }
    } else if 0 <= i < s.len() && s[i] == 'r' {
        let h = hashes_end(s, i + 1);
        let n = h - (i + 1);
        if h < s.len() && s[h] == '"' {
            let p = raw_body_end(s, h + 1, n);
            if closes_raw(s, p, n) {
                Some(p + 1 + n)
            } else {
                None
            }
        } else {
            None
        }
    } else {
        None
    }
}

/// The position after the token that starts at `i`: a string literal, a run
/// of identifier characters (a word or a number), or else one character.
pub open spec fn token_end(s: Seq<char>, i: int) -> int {
    match literal_end(s, i) {
        Some(k) => k,
        None => if 0 <= i < s.len() && (is_ident_start(s[i]) || is_ident_continue(s[i])) {
            ident_end(s, i + 1)
        } else {
            i + 1
        },
    }
}

/// The string literal at `i`: its value and the position after it.
pub open spec fn string_literal(s: Seq<char>, i: int) -> Option<(Seq<char>, int)> {
    match literal_end(s, i) {
        None => None,
        Some(k) => {
            let value = if s[i] == '"' {
                plain_value(s.subrange(i + 1, k - 1))
            } else {
                let n = hashes_end(s, i + 1) - (i + 1);
                raw_value(s.subrange(i + 2 + n, k - 1 - n))
            };
            match value {
                None => None,
                Some(v) => Some((v, k)),
            }
        },
    }
}

/// The span from `i` to `j`.
pub open spec fn span(i: int, j: int) -> Span {
    Span { start: i as usize, end: j as usize }
}

/// The span of the token at `i`, or the empty span at the end.
pub open spec fn token_span(s: Seq<char>, i: int) -> Span {
    if i < s.len() {
        span(i, token_end(s, i))
    } else {
        span(i, i)
    }
}

/// The keys that a declaration may hold.
pub open spec fn recognized(key: Seq<char>) -> bool {
    key == "name"@ || key == "files"@ || key == "include_directories"@ || key
        == "include_directory_env_vars"@
}

/// A string literal's contents with its span.
pub type LocatedView = (Seq<char>, Span);

/// The mathematical model of one parsed entry.
pub ghost enum FieldView {
    Name(Seq<char>),
    Files(Seq<Seq<char>>),
    Directories(Seq<Seq<char>>),
    DirectoryEnvVars(Seq<LocatedView>),
}

/// A parse result with `p` put in front of the items it holds; errors unchanged.
pub open spec fn prepend<T>(p: Seq<T>, r: Result<(Seq<T>, int), ErrorView>) -> Result<
    (Seq<T>, int),
    ErrorView,
> {
    match r {
        Ok((x, e)) => Ok((p + x, e)),
        Err(err) => Err(err),
    }
}

/// The items of a list whose opening bracket stands before `i`, and the
/// position after its closing bracket.
pub open spec fn list_items(s: Seq<char>, i: int) -> Result<(Seq<LocatedView>, int), ErrorView>
    decreases s.len() - i,
    via list_items_decreases
{
    let j = skip_ws(s, i);
    if j < s.len() && s[j] == ']' {
        Ok((seq![], j + 1))
    } else {
        match string_literal(s, j) {
            None => Err(ErrorView::MalformedList { location: token_span(s, j) }),
            Some((v, k)) => {
                let c = skip_ws(s, k);
                if c < s.len() && s[c] == ']' {
                    Ok((seq![(v, span(j, k))], c + 1))
                } else if c < s.len() && s[c] == ',' {
                    prepend(seq![(v, span(j, k))], list_items(s, c + 1))
                } else {
                    Err(ErrorView::MalformedList { location: token_span(s, c) })
                }
            },
        }
    }
}

#[via_fn]
proof fn list_items_decreases(s: Seq<char>, i: int) {
    lemma_skip_ws(s, i);
    let j = skip_ws(s, i);
    if let Some((v, k)) = string_literal(s, j) {
        lemma_literal(s, j);
        lemma_skip_ws(s, k);
    }
}

pub proof fn lemma_skip_ws(s: Seq<char>, i: int)
    ensures
        skip_ws(s, i) >= i,
        0 <= i <= s.len() ==> skip_ws(s, i) <= s.len(),
    decreases s.len() - i,
{
    if 0 <= i < s.len() && is_ws(s[i]) {
        lemma_skip_ws(s, i + 1);
    }
}

pub proof fn lemma_ident_end(s: Seq<char>, i: int)
    ensures
        ident_end(s, i) >= i,
        0 <= i <= s.len() ==> ident_end(s, i) <= s.len(),
    decreases s.len() - i,
{
    if 0 <= i < s.len() && is_ident_continue(s[i]) {
        lemma_ident_end(s, i + 1);
    }
}

proof fn lemma_quoted_body_end(s: Seq<char>, i: int)
    ensures
        quoted_body_end(s, i) >= i,
    decreases s.len() - i,
{
    if 0 <= i < s.len() && s[i] != '"' {
        if s[i] != '\\' {
            lemma_quoted_body_end(s, i + 1);
        } else if i + 1 < s.len() {
            lemma_quoted_body_end(s, i + 2);
        }
    }
}

proof fn lemma_hashes_end(s: Seq<char>, i: int)
    ensures
        hashes_end(s, i) >= i,
    decreases s.len() - i,
{
    if 0 <= i < s.len() && s[i] == '#' {
        lemma_hashes_end(s, i + 1);
    }
}

proof fn lemma_raw_body_end(s: Seq<char>, p: int, n: int)
    ensures
        raw_body_end(s, p, n) >= p,
    decreases s.len() - p,
{
    if 0 <= p < s.len() && !closes_raw(s, p, n) {
        lemma_raw_body_end(s, p + 1, n);
    }
}

pub proof fn lemma_literal(s: Seq<char>, i: int)
    ensures
        literal_end(s, i) matches Some(k) ==> i < k <= s.len() && (s[i] == '"' ==> i + 2 <= k) && (
        s[i] != '"' ==> s[i] == 'r' && i + 2 + (hashes_end(s, i + 1) - (i + 1)) <= k - 1 - (
        hashes_end(s, i + 1) - (i + 1))),
        string_literal(s, i) matches Some((v, k)) ==> i < k <= s.len(),
{
    lemma_quoted_body_end(s, i + 1);
    lemma_hashes_end(s, i + 1);
    let h = hashes_end(s, i + 1);
    lemma_raw_body_end(s, h + 1, h - (i + 1));
}

pub proof fn lemma_list_items(s: Seq<char>, i: int)
    ensures
        list_items(s, i) matches Ok((items, k)) ==> i < k <= s.len(),
    decreases s.len() - i,
{
    lemma_skip_ws(s, i);
    let j = skip_ws(s, i);
    if let Some((v, k)) = string_literal(s, j) {
        lemma_literal(s, j);
        lemma_skip_ws(s, k);
        let c = skip_ws(s, k);
        if !(c < s.len() && s[c] == ']') && c < s.len() && s[c] == ',' {
            lemma_list_items(s, c + 1);
        }
    }
}

/// The contents of located literals, without their spans.
pub open spec fn values(items: Seq<LocatedView>) -> Seq<Seq<char>> {
    items.map_values(|x: LocatedView| x.0)
}

/// The entry of a list key, given the list's items.
pub open spec fn list_field(key: Seq<char>, items: Seq<LocatedView>) -> FieldView {
    if key == "files"@ {
        FieldView::Files(values(items))
    } else if key == "include_directories"@ {
        FieldView::Directories(values(items))
    } else {
        FieldView::DirectoryEnvVars(items)
    }
}

/// The entry that starts at `j`, and the position after it.
pub open spec fn field(s: Seq<char>, j: int) -> Result<(FieldView, int), ErrorView> {
    if !(0 <= j < s.len() && is_ident_start(s[j])) {
        Err(ErrorView::UnexpectedToken { location: token_span(s, j) })
    } else {
        let e = ident_end(s, j + 1);
        let key = s.subrange(j, e);
        if !recognized(key) {
            Err(ErrorView::UnknownField { key, location: span(j, e) })
        } else {
            let c = skip_ws(s, e);
            if !(c < s.len() && s[c] == ':') {
                Err(ErrorView::UnexpectedToken { location: token_span(s, c) })
            } else {
                let v = skip_ws(s, c + 1);
                if key == "name"@ {
                    match string_literal(s, v) {
                        None => Err(ErrorView::MalformedScalar { location: token_span(s, v) }),
                        Some((x, k)) => if x.len() == 0 {
                            Err(ErrorView::MalformedScalar { location: span(v, k) })
                        } else {
                            Ok((FieldView::Name(x), k))
                        },
                    }
                } else if !(v < s.len() && s[v] == '[') {
                    Err(ErrorView::MalformedList { location: token_span(s, v) })
                } else {
                    match list_items(s, v + 1) {
                        Err(err) => Err(err),
                        Ok((items, k)) => Ok((list_field(key, items), k)),
                    }
                }
            }
        }
    }
}

pub proof fn lemma_field(s: Seq<char>, j: int)
    ensures
        field(s, j) matches Ok((f, k)) ==> j < k <= s.len(),
{
    if 0 <= j < s.len() && is_ident_start(s[j]) {
        lemma_ident_end(s, j + 1);
        let e = ident_end(s, j + 1);
        lemma_skip_ws(s, e);
        let c = skip_ws(s, e);
        if c < s.len() {
            lemma_skip_ws(s, c + 1);
            let v = skip_ws(s, c + 1);
            lemma_literal(s, v);
            lemma_list_items(s, v + 1);
        }
    }
}

/// The entries from `i` to the end of the input.
pub open spec fn entries(s: Seq<char>, i: int) -> Result<Seq<FieldView>, ErrorView>
    decreases s.len() - i,
    via entries_decreases
{
    let j = skip_ws(s, i);
    if !(0 <= j < s.len()) {
        Ok(seq![])
    } else {
        match field(s, j) {
            Err(err) => Err(err),
            Ok((f, k)) => {
                let c = skip_ws(s, k);
                if !(0 <= c < s.len()) {
                    Ok(seq![f])
                } else if s[c] == ',' {
                    match entries(s, c + 1) {
                        Err(err) => Err(err),
                        Ok(rest) => Ok(seq![f] + rest),
                    }
                } else {
                    Err(ErrorView::UnexpectedToken { location: token_span(s, c) })
                }
            },
        }
    }
}

#[via_fn]
proof fn entries_decreases(s: Seq<char>, i: int) {
    lemma_skip_ws(s, i);
    let j = skip_ws(s, i);
    lemma_field(s, j);
    if let Ok((f, k)) = field(s, j) {
        lemma_skip_ws(s, k);
    }
}

/// What the entries of a declaration amount to so far: the name where one
/// was given, and each list (empty where its key was not given).
pub ghost struct Collected {
    pub name: Option<Seq<char>>,
    pub files: Seq<Seq<char>>,
    pub directories: Seq<Seq<char>>,
    pub directory_env_vars: Seq<LocatedView>,
}

/// Takes one more entry into account: it replaces what its key held.
pub open spec fn apply(c: Collected, f: FieldView) -> Collected {
    match f {
        FieldView::Name(x) => Collected { name: Some(x), ..c },
        FieldView::Files(x) => Collected { files: x, ..c },
        FieldView::Directories(x) => Collected { directories: x, ..c },
        FieldView::DirectoryEnvVars(x) => Collected { directory_env_vars: x, ..c },
    }
}

/// The entries folded from first to last, so that the last one of a key wins.
pub open spec fn collect(fs: Seq<FieldView>) -> Collected
    decreases fs.len(),
{
    if fs.len() == 0 {
        Collected { name: None, files: seq![], directories: seq![], directory_env_vars: seq![] }
    } else {
        apply(collect(fs.drop_last()), fs.last())
    }
}

/// The mathematical model of a parsed dialect declaration.
pub ghost struct DialectView {
    pub name: Seq<char>,
    pub files: Seq<Seq<char>>,
    pub directories: Seq<Seq<char>>,
    pub directory_env_vars: Seq<LocatedView>,
}

/// What parsing the declaration `s` gives.
pub open spec fn parse_dialect(s: Seq<char>) -> Result<DialectView, ErrorView> {
    match entries(s, 0) {
        Err(err) => Err(err),
        Ok(fs) => {
            let c = collect(fs);
            match c.name {
                None => Err(
                    ErrorView::MissingRequiredField { field: "name"@, location: span(0, s.len() as int) },
                ),
                Some(name) => Ok(
                    DialectView {
                        name,
                        files: c.files,
                        directories: c.directories,
                        directory_env_vars: c.directory_env_vars,
                    },
                ),
            }
        },
    }
}

/// Whether an entry gives the name.
pub open spec fn is_name(f: FieldView) -> bool {
    f is Name
}

proof fn lemma_collect_names(fs: Seq<FieldView>)
    requires
        forall|k: int| 0 <= k < fs.len() ==> is_name(#[trigger] fs[k]),
    ensures
        collect(fs).files == Seq::<Seq<char>>::empty(),
        collect(fs).directories == Seq::<Seq<char>>::empty(),
        collect(fs).directory_env_vars == Seq::<LocatedView>::empty(),
        fs.len() > 0 ==> collect(fs).name is Some,
    decreases fs.len(),
{
    if fs.len() > 0 {
        let init = fs.drop_last();
        assert forall|k: int| 0 <= k < init.len() implies is_name(#[trigger] init[k]) by {
            assert(init[k] == fs[k]);
        }
        lemma_collect_names(init);
        assert(is_name(fs[fs.len() - 1]));
    }
}

proof fn lemma_collect_no_name(fs: Seq<FieldView>)
    requires
        forall|k: int| 0 <= k < fs.len() ==> !is_name(#[trigger] fs[k]),
    ensures
        collect(fs).name is None,
    decreases fs.len(),
{
    if fs.len() > 0 {
        let init = fs.drop_last();
        assert forall|k: int| 0 <= k < init.len() implies !is_name(#[trigger] init[k]) by {
            assert(init[k] == fs[k]);
        }
        lemma_collect_no_name(init);
        assert(!is_name(fs[fs.len() - 1]));
    }
}

/// A declaration whose entries all give the name parses, and its three lists
/// are empty.
pub proof fn lemma_name_only_defaults(s: Seq<char>)
    requires
        entries(s, 0) is Ok,
        entries(s, 0)->Ok_0.len() > 0,
        forall|k: int|
            0 <= k < entries(s, 0)->Ok_0.len() ==> is_name(#[trigger] entries(s, 0)->Ok_0[k]),
    ensures
        parse_dialect(s) is Ok,
        parse_dialect(s)->Ok_0.files == Seq::<Seq<char>>::empty(),
        parse_dialect(s)->Ok_0.directories == Seq::<Seq<char>>::empty(),
        parse_dialect(s)->Ok_0.directory_env_vars == Seq::<LocatedView>::empty(),
{
    lemma_collect_names(entries(s, 0)->Ok_0);
}

/// A declaration whose entries parse but none of which gives the name fails
/// with `MissingRequiredField`, blamed on the whole input.
pub proof fn lemma_missing_name(s: Seq<char>)
    requires
        entries(s, 0) is Ok,
        forall|k: int|
            0 <= k < entries(s, 0)->Ok_0.len() ==> !is_name(#[trigger] entries(s, 0)->Ok_0[k]),
    ensures
        parse_dialect(s) == Err::<DialectView, _>(
            ErrorView::MissingRequiredField { field: "name"@, location: span(0, s.len() as int) },
        ),
{
    lemma_collect_no_name(entries(s, 0)->Ok_0);
}

/// Where the entry at `i` (after whitespace) has a key outside the
/// recognized set, the entries from `i` fail with `UnknownField`, blamed on
/// exactly that key.
pub proof fn lemma_unknown_key(s: Seq<char>, i: int)
    requires
        0 <= skip_ws(s, i) < s.len(),
        is_ident_start(s[skip_ws(s, i)]),
        !recognized(s.subrange(skip_ws(s, i), ident_end(s, skip_ws(s, i) + 1))),
    ensures
        entries(s, i) == Err::<Seq<FieldView>, _>(
            ErrorView::UnknownField {
                key: s.subrange(skip_ws(s, i), ident_end(s, skip_ws(s, i) + 1)),
                location: span(skip_ws(s, i), ident_end(s, skip_ws(s, i) + 1)),
            },
        ),
{
}

proof fn lemma_list_errors(s: Seq<char>, i: int)
    ensures
        list_items(s, i) matches Err(e) ==> e is MalformedList,
    decreases s.len() - i,
{
    lemma_skip_ws(s, i);
    let j = skip_ws(s, i);
    if let Some((v, k)) = string_literal(s, j) {
        lemma_literal(s, j);
        lemma_skip_ws(s, k);
        let c = skip_ws(s, k);
        if !(c < s.len() && s[c] == ']') && c < s.len() && s[c] == ',' {
            lemma_list_errors(s, c + 1);
        }
    }
}

/// Whether `loc` lies within `s` and covers exactly `key`, which is not a
/// recognized key.
pub open spec fn blames_key(s: Seq<char>, key: Seq<char>, loc: Span) -> bool {
    loc.start < loc.end <= s.len() && s.subrange(loc.start as int, loc.end as int) == key
        && !recognized(key)
}

proof fn lemma_entries_blame(s: Seq<char>, i: int)
    requires
        0 <= i,
        s.len() <= usize::MAX,
    ensures
        entries(s, i) matches Err(ErrorView::UnknownField { key, location }) ==> blames_key(
            s,
            key,
            location,
        ),
    decreases s.len() - i,
{
    lemma_skip_ws(s, i);
    let j = skip_ws(s, i);
    if 0 <= j < s.len() {
        lemma_field(s, j);
        if 0 <= j < s.len() && is_ident_start(s[j]) {
            lemma_ident_end(s, j + 1);
            let e = ident_end(s, j + 1);
            lemma_skip_ws(s, e);
            let c = skip_ws(s, e);
            if c < s.len() {
                lemma_skip_ws(s, c + 1);
                lemma_list_errors(s, skip_ws(s, c + 1) + 1);
            }
        }
        if let Ok((f, k)) = field(s, j) {
            lemma_skip_ws(s, k);
            let c = skip_ws(s, k);
            if 0 <= c < s.len() && s[c] == ',' {
                lemma_entries_blame(s, c + 1);
            }
        }
    }
}

/// Wherever parsing fails with `UnknownField`, the location reported covers
/// exactly the offending key in the input, not the whole input.
pub proof fn lemma_unknown_field_blames_key(s: Seq<char>)
    requires
        s.len() <= usize::MAX,
    ensures
        parse_dialect(s) matches Err(ErrorView::UnknownField { key, location }) ==> blames_key(
            s,
            key,
            location,
        ),
{
    lemma_entries_blame(s, 0);
}

/// The bare identifiers from `i` to the end of the input, separated by
/// commas (a trailing comma is allowed).
pub open spec fn identifier_items(s: Seq<char>, i: int) -> Result<Seq<Seq<char>>, ErrorView>
    decreases s.len() - i,
    via identifier_items_decreases
{
    let j = skip_ws(s, i);
    if !(0 <= j < s.len()) {
        Ok(seq![])
    } else if !is_ident_start(s[j]) {
        Err(ErrorView::MalformedList { location: token_span(s, j) })
    } else {
        let e = ident_end(s, j + 1);
        let c = skip_ws(s, e);
        if !(0 <= c < s.len()) {
            Ok(seq![s.subrange(j, e)])
        } else if s[c] == ',' {
            match identifier_items(s, c + 1) {
                Err(err) => Err(err),
                Ok(rest) => Ok(seq![s.subrange(j, e)] + rest),
            }
        } else {
            Err(ErrorView::MalformedList { location: token_span(s, c) })
        }
    }
}

#[via_fn]
proof fn identifier_items_decreases(s: Seq<char>, i: int) {
    lemma_skip_ws(s, i);
    let j = skip_ws(s, i);
    lemma_ident_end(s, j + 1);
    lemma_skip_ws(s, ident_end(s, j + 1));
}

/// The mathematical model of a parsed identifier list.
pub ghost struct IdentifierSetView {
    pub namespace: Option<Seq<char>>,
    pub identifiers: Seq<Seq<char>>,
}

/// What parsing the identifier list `s` gives: an optional leading string
/// literal, the namespace, then the identifiers, all separated by commas.
pub open spec fn identifier_set(s: Seq<char>) -> Result<IdentifierSetView, ErrorView> {
    let j = skip_ws(s, 0);
    match string_literal(s, j) {
        None => match identifier_items(s, 0) {
            Err(err) => Err(err),
            Ok(ids) => Ok(IdentifierSetView { namespace: None, identifiers: ids }),
        },
        Some((ns, k)) => {
            let c = skip_ws(s, k);
            if !(0 <= c < s.len()) {
                Ok(IdentifierSetView { namespace: Some(ns), identifiers: seq![] })
            } else if s[c] == ',' {
                match identifier_items(s, c + 1) {
                    Err(err) => Err(err),
                    Ok(ids) => Ok(IdentifierSetView { namespace: Some(ns), identifiers: ids }),
                }
            } else {
                Err(ErrorView::MalformedList { location: token_span(s, c) })
            }
        },
    }
}

/// Whether every name among the entries is non-empty.
pub open spec fn names_nonempty(fs: Seq<FieldView>) -> bool {
    forall|k: int| 0 <= k < fs.len() ==> (#[trigger] fs[k] matches FieldView::Name(x) ==> x.len() > 0)
}

proof fn lemma_entries_names(s: Seq<char>, i: int)
    ensures
        entries(s, i) matches Ok(fs) ==> names_nonempty(fs),
    decreases s.len() - i,
{
    lemma_skip_ws(s, i);
    let j = skip_ws(s, i);
    if 0 <= j < s.len() {
        lemma_field(s, j);
        if let Ok((f, k)) = field(s, j) {
            lemma_skip_ws(s, k);
            let c = skip_ws(s, k);
            if 0 <= c < s.len() && s[c] == ',' {
                lemma_entries_names(s, c + 1);
                if let Ok(rest) = entries(s, c + 1) {
                    let fs = seq![f] + rest;
                    assert forall|q: int| 0 <= q < fs.len() implies (#[trigger] fs[q] matches FieldView::Name(x) ==> x.len() > 0) by {
                        if q > 0 {
                            assert(fs[q] == rest[q - 1]);
                        }
                    }
                }
            }
        }
    }
}

proof fn lemma_collect_name(fs: Seq<FieldView>)
    requires
        names_nonempty(fs),
    ensures
        collect(fs).name matches Some(x) ==> x.len() > 0,
    decreases fs.len(),
{
    if fs.len() > 0 {
        let init = fs.drop_last();
        assert forall|k: int| 0 <= k < init.len() implies (#[trigger] init[k] matches FieldView::Name(x) ==> x.len() > 0) by {
            assert(init[k] == fs[k]);
        }
        lemma_collect_name(init);
        assert(fs.last() == fs[fs.len() - 1]);
    }
}

/// A declaration that parses has a non-empty name.
pub proof fn lemma_name_not_empty(s: Seq<char>)
    ensures
        parse_dialect(s) matches Ok(d) ==> d.name.len() > 0,
{
    lemma_entries_names(s, 0);
    if let Ok(fs) = entries(s, 0) {
        lemma_collect_name(fs);
    }
}

} // verus!
