//! Derivation of short names from fully qualified identifiers by literal
//! prefix and suffix removal.
use vstd::prelude::*;
use vstd::string::*;

use crate::error::{DialectError, ErrorView};
use crate::text::occurs_at;

verus! {

/// `s` without its leading `p`, or `None` where `s` does not start with `p`.
pub open spec fn strip_prefix_spec(s: Seq<char>, p: Seq<char>) -> Option<Seq<char>> {
    if p.is_prefix_of(s) {
        Some(s.subrange(p.len() as int, s.len() as int))
    } else {
        None
    }
}

/// `s` without its trailing `p`, or `None` where `s` does not end with `p`.
pub open spec fn strip_suffix_spec(s: Seq<char>, p: Seq<char>) -> Option<Seq<char>> {
    if p.is_suffix_of(s) {
        Some(s.subrange(0, s.len() - p.len()))
    } else {
        None
    }
}

/// The stripped text where the strip applied, else the text unchanged.
pub open spec fn or_keep(r: Option<Seq<char>>, s: Seq<char>) -> Seq<char> {
    match r {
        Some(t) => t,
        None => s,
    }
}

/// The display name of a conversion pass: `Conversion` is removed from the
/// front (required), then `Convert` from the front, `ConversionPass` from the
/// back and `Pass` from the back, each where present.
pub open spec fn conversion_pass_name_spec(s: Seq<char>) -> Option<Seq<char>> {
    match strip_prefix_spec(s, "Conversion"@) {
        None => None,
        Some(a) => {
            let b = or_keep(strip_prefix_spec(a, "Convert"@), a);
            let c = or_keep(strip_suffix_spec(b, "ConversionPass"@), b);
            Some(or_keep(strip_suffix_spec(c, "Pass"@), c))
        },
    }
}

/// Removes `prefix` from the front of `name`, where it stands there.
fn strip_prefix_opt(name: &str, prefix: &str) -> (r: Option<String>)
    ensures
        r is Some <==> strip_prefix_spec(name@, prefix@) is Some,
        r matches Some(v) ==> strip_prefix_spec(name@, prefix@) == Some(v@),
{
    let n = name.unicode_len();
    let m = prefix.unicode_len();
    if occurs_at(name, prefix, 0) {
        Some(name.substring_char(m, n).to_owned())
    } else {
        None
    }
}

/// Removes `suffix` from the back of `name`, where it stands there.
fn strip_suffix_opt(name: &str, suffix: &str) -> (r: Option<String>)
    ensures
        r is Some <==> strip_suffix_spec(name@, suffix@) is Some,
        r matches Some(v) ==> strip_suffix_spec(name@, suffix@) == Some(v@),
{
    let n = name.unicode_len();
    let m = suffix.unicode_len();
    if m > n {
        return None;
    }
    if occurs_at(name, suffix, n - m) {
        Some(name.substring_char(0, n - m).to_owned())
    } else {
        None
    }
}

/// Removes `suffix` from the back of `name` where it stands there, else
/// returns `name` unchanged.
fn strip_suffix_or_keep(name: String, suffix: &str) -> (r: String)
    ensures
        r@ == or_keep(strip_suffix_spec(name@, suffix@), name@),
{
    match strip_suffix_opt(name.as_str(), suffix) {
        Some(v) => v,
        None => name,
    }
}

/// Removes the required `prefix` from the front of `name`.
///
/// Fails with `PrefixNotFound { expected: prefix, actual: name }` where
/// `name` does not start with `prefix`.
pub fn strip_prefix(name: &str, prefix: &str) -> (r: Result<String, DialectError>)
    ensures
        r is Ok <==> prefix@.is_prefix_of(name@),
        r matches Ok(v) ==> v@ == name@.subrange(prefix@.len() as int, name@.len() as int),
        r matches Err(e) ==> e@ == (ErrorView::PrefixNotFound { expected: prefix@, actual: name@ }),
{
    match strip_prefix_opt(name, prefix) {
        Some(v) => Ok(v),
        None => Err(
            DialectError::PrefixNotFound { expected: prefix.to_owned(), actual: name.to_owned() },
        ),
    }
}

/// The display name of a conversion pass (see [`conversion_pass_name_spec`]).
///
/// Fails with `PrefixNotFound` where `name` does not start with `Conversion`.
pub fn conversion_pass_name(name: &str) -> (r: Result<String, DialectError>)
    ensures
        r is Ok <==> conversion_pass_name_spec(name@) is Some,
        r matches Ok(v) ==> conversion_pass_name_spec(name@) == Some(v@),
        r matches Err(e) ==> e@ == (ErrorView::PrefixNotFound {
            expected: "Conversion"@,
            actual: name@,
        }),
{
    let a = match strip_prefix(name, "Conversion") {
        Ok(a) => a,
        Err(e) => {
            return Err(e);
        },
    };
    let b = match strip_prefix_opt(a.as_str(), "Convert") {
        Some(b) => b,
        None => a,
    };
    let c = strip_suffix_or_keep(b, "ConversionPass");
    Ok(strip_suffix_or_keep(c, "Pass"))
}

/// The conversion pass names of `ids`, in order, or the error of the first
/// identifier that does not start with `Conversion`.
pub fn conversion_pass_names(ids: &[String]) -> (r: Result<Vec<String>, DialectError>)
    ensures
        r is Ok <==> forall|k: int|
            0 <= k < ids@.len() ==> #[trigger] conversion_pass_name_spec(ids@[k]@) is Some,
        r matches Ok(v) ==> v@.len() == ids@.len() && forall|k: int|
            0 <= k < ids@.len() ==> conversion_pass_name_spec(ids@[k]@) == Some(
                #[trigger] v@[k]@,
            ),
        r matches Err(e) ==> exists|k: int|
            0 <= k < ids@.len() && conversion_pass_name_spec(#[trigger] ids@[k]@) is None && (
            forall|j: int| 0 <= j < k ==> conversion_pass_name_spec(ids@[j]@) is Some) && e@
                == (ErrorView::PrefixNotFound { expected: "Conversion"@, actual: ids@[k]@ }),
{
    let mut out: Vec<String> = Vec::new();
    let mut i: usize = 0;
    while i < ids.len()
        invariant
            i <= ids@.len(),
            out@.len() == i,
            forall|k: int|
                0 <= k < i ==> conversion_pass_name_spec(ids@[k]@) == Some(#[trigger] out@[k]@),
            forall|j: int| 0 <= j < i ==> #[trigger] conversion_pass_name_spec(ids@[j]@) is Some,
        decreases ids@.len() - i,
    {
        match conversion_pass_name(ids[i].as_str()) {
            Ok(v) => out.push(v),
            Err(e) => {
                assert(ids@[i as int]@ == ids[i as int]@);
                return Err(e);
            },
        }
        i = i + 1;
    }
    Ok(out)
}

/// `ids` each without the caller's `prefix`, in order, or the error of the
/// first identifier that does not start with it.
pub fn prefixed_pass_names(prefix: &str, ids: &[String]) -> (r: Result<
    Vec<String>,
    DialectError,
>)
    ensures
        r is Ok <==> forall|k: int|
            0 <= k < ids@.len() ==> #[trigger] strip_prefix_spec(ids@[k]@, prefix@) is Some,
        r matches Ok(v) ==> v@.len() == ids@.len() && forall|k: int|
            0 <= k < ids@.len() ==> strip_prefix_spec(ids@[k]@, prefix@) == Some(
                #[trigger] v@[k]@,
            ),
        r matches Err(e) ==> exists|k: int|
            0 <= k < ids@.len() && strip_prefix_spec(#[trigger] ids@[k]@, prefix@) is None && (
            forall|j: int| 0 <= j < k ==> strip_prefix_spec(ids@[j]@, prefix@) is Some) && e@
                == (ErrorView::PrefixNotFound { expected: prefix@, actual: ids@[k]@ }),
{
    let mut out: Vec<String> = Vec::new();
    let mut i: usize = 0;
    while i < ids.len()
        invariant
            i <= ids@.len(),
            out@.len() == i,
            forall|k: int|
                0 <= k < i ==> strip_prefix_spec(ids@[k]@, prefix@) == Some(#[trigger] out@[k]@),
            forall|j: int| 0 <= j < i ==> #[trigger] strip_prefix_spec(ids@[j]@, prefix@) is Some,
        decreases ids@.len() - i,
    {
        match strip_prefix(ids[i].as_str(), prefix) {
            Ok(v) => out.push(v),
            Err(e) => {
                assert(strip_prefix_spec(ids@[i as int]@, prefix@) is None);
                return Err(e);
            },
        }
        i = i + 1;
    }
    Ok(out)
}

/// Stripping a prefix undoes prepending it: from `p + r`, stripping `p`
/// gives exactly `r`; from a string that does not start with `p`, it fails.
pub proof fn lemma_strip_prefix_round_trip(p: Seq<char>, r: Seq<char>, s: Seq<char>)
    ensures
        strip_prefix_spec(p + r, p) == Some(r),
        !p.is_prefix_of(s) ==> strip_prefix_spec(s, p) is None,
{
    assert((p + r).subrange(0, p.len() as int) =~= p);
    assert((p + r).subrange(p.len() as int, (p + r).len() as int) =~= r);
}

} // verus!
