//! A list of bare identifiers, optionally led by a namespace literal.
use vstd::prelude::*;
use vstd::string::*;

use crate::error::{DialectError, ErrorView};
use crate::grammar::{identifier_items, identifier_set, IdentifierSetView};
use crate::input_field::{
    identifier_end, is_identifier_start, parse_string_literal, token_span_at, skip_whitespace, strings,
};

verus! {

/// The namespace (or prefix) given before a list of identifiers, and the
/// identifiers in the order written, duplicates kept.
pub struct IdentifierSet {
    namespace: Option<String>,
    identifiers: Vec<String>,
}

spec fn namespace_view(ns: Option<String>) -> Option<Seq<char>> {
    match ns {
        Some(x) => Some(x@),
        None => None,
    }
}

impl View for IdentifierSet {
    type V = IdentifierSetView;

    closed spec fn view(&self) -> IdentifierSetView {
        IdentifierSetView {
            namespace: namespace_view(self.namespace),
            identifiers: strings(self.identifiers@),
        }
    }
}

/// The identifiers seen so far put in front of those still to come.
spec fn after(seen: Seq<Seq<char>>, rest: Result<Seq<Seq<char>>, ErrorView>) -> Result<
    Seq<Seq<char>>,
    ErrorView,
> {
    match rest {
        Ok(x) => Ok(seen + x),
        Err(err) => Err(err),
    }
}

/// The bare identifiers from `i` to the end of `s`.
fn parse_identifier_items(s: &str, n: usize, i: usize) -> (r: Result<Vec<String>, DialectError>)
    requires
        n == s@.len(),
        i <= n,
    ensures
        r matches Ok(v) ==> identifier_items(s@, i as int) == Ok::<_, ErrorView>(strings(v@)),
        r matches Err(e) ==> identifier_items(s@, i as int) == Err::<Seq<Seq<char>>, _>(e@),
{
    let mut out: Vec<String> = Vec::new();
    let mut cur = i;
    assert(strings(out@) + identifier_items(s@, i as int)->Ok_0 =~= identifier_items(
        s@,
        i as int,
    )->Ok_0);
    loop
        invariant_except_break
            cur <= n,
            identifier_items(s@, i as int) == after(strings(out@), identifier_items(s@, cur as int)),
        invariant
            n == s@.len(),
        ensures
            identifier_items(s@, i as int) == Ok::<_, ErrorView>(strings(out@)),
        decreases n - cur,
    {
        let j = skip_whitespace(s, n, cur);
        if j >= n {
            assert(strings(out@) + seq![] =~= strings(out@));
            break;
        }
        if !is_identifier_start(s.get_char(j)) {
            return Err(DialectError::MalformedList { location: token_span_at(s, n, j) });
        }
        let e = identifier_end(s, n, j + 1);
        let ghost before = strings(out@);
        out.push(s.substring_char(j, e).to_owned());
        let ghost id = s@.subrange(j as int, e as int);
        assert(strings(out@) =~= before + seq![id]);
        let c = skip_whitespace(s, n, e);
        if c >= n {
            break;
        }
        if s.get_char(c) == ',' {
            proof {
                match identifier_items(s@, c + 1) {
                    Ok(x) => {
                        assert(before + (seq![id] + x) =~= strings(out@) + x);
                    },
                    Err(_) => {},
                }
            }
            cur = c + 1;
        } else {
            return Err(DialectError::MalformedList { location: token_span_at(s, n, c) });
        }
    }
    Ok(out)
}

impl IdentifierSet {
    /// Parses an optional namespace literal followed by bare identifiers, all
    /// separated by commas; an element that is not a bare identifier fails
    /// with `MalformedList`, blamed on that element.
    pub fn parse(input: &str) -> (r: Result<IdentifierSet, DialectError>)
        ensures
            r matches Ok(set) ==> identifier_set(input@) == Ok::<_, ErrorView>(set@),
            r matches Err(e) ==> identifier_set(input@) == Err::<IdentifierSetView, _>(e@),
    {
        let n = input.unicode_len();
        let j = skip_whitespace(input, n, 0);
        match parse_string_literal(input, n, j) {
            None => {
                let identifiers = parse_identifier_items(input, n, 0)?;
                Ok(IdentifierSet { namespace: None, identifiers })
            },
            Some((ns, k)) => {
                let c = skip_whitespace(input, n, k);
                if c >= n {
                    let set = IdentifierSet { namespace: Some(ns), identifiers: Vec::new() };
                    assert(set@.identifiers =~= seq![]);
                    Ok(set)
                } else if input.get_char(c) == ',' {
                    let identifiers = parse_identifier_items(input, n, c + 1)?;
                    Ok(IdentifierSet { namespace: Some(ns), identifiers })
                } else {
                    Err(DialectError::MalformedList { location: token_span_at(input, n, c) })
                }
            },
        }
    }

    /// The namespace given before the list, if any.
    pub fn namespace(&self) -> (r: Option<&str>)
        ensures
            r matches Some(x) ==> self@.namespace == Some(x@),
            r is None <==> self@.namespace is None,
    {
        match &self.namespace {
            Some(x) => Some(x.as_str()),
            None => None,
        }
    }

    /// The identifiers in the order written.
    pub fn identifiers(&self) -> (r: &[String])
        ensures
            strings(r@) == self@.identifiers,
    {
        self.identifiers.as_slice()
    }
}

} // verus!
