//! The value of a string literal: Rust's escapes, resolved.
//!
//! A backslash starts an escape: `\n`, `\r`, `\t`, `\\`, `\0`, `\'` and `\"`
//! stand for one character each; `\x` with two hex digits for a character up
//! to `0x7F`; `\u{...}` with one to six hex digits (underscores allowed after
//! the first) for the Unicode scalar value they spell; a backslash before a
//! line feed drops the line feed and the whitespace after it. Any other
//! escape is an error, and so is a carriage return anywhere in a literal.
use vstd::prelude::*;
use vstd::string::*;

use crate::grammar::{lemma_skip_ws, skip_ws};
use crate::input_field::skip_whitespace;
use crate::lexis::{char_from_scalar, char_text, is_scalar};

verus! {

pub open spec fn is_hex(c: char) -> bool {
    ('0' <= c && c <= '9') || ('a' <= c && c <= 'f') || ('A' <= c && c <= 'F')
}

pub open spec fn hex_value(c: char) -> int {
    if '0' <= c && c <= '9' {
        c as int - '0' as int
    } else if 'a' <= c && c <= 'f' {
        c as int - 'a' as int + 10
    } else {
        c as int - 'A' as int + 10
    }
}

/// The character that a one-letter escape stands for.
pub open spec fn simple_escape(e: char) -> Option<char> {
    if e == 'n' {
        Some('\n')
    } else if e == 'r' {
        Some('\r')
    } else if e == 't' {
        Some('\t')
    } else if e == '\\' {
        Some('\\')
    } else if e == '0' {
        Some('\0')
    } else if e == '\'' {
        Some('\'')
    } else if e == '"' {
        Some('"')
    } else {
        None
    }
}

/// The first position at or after `p` that holds neither a hex digit nor an
/// underscore.
pub open spec fn digits_end(b: Seq<char>, p: int) -> int
    decreases b.len() - p,
{
    if 0 <= p < b.len() && (is_hex(b[p]) || b[p] == '_') {
        digits_end(b, p + 1)
    } else {
        p
    }
}

/// The number that the hex digits in `b[p..q]` spell, underscores skipped.
pub open spec fn hex_num(b: Seq<char>, p: int, q: int) -> int
    decreases q - p,
{
    if q <= p {
        0
    } else if b[q - 1] == '_' {
        hex_num(b, p, q - 1)
    } else {
        hex_num(b, p, q - 1) * 16 + hex_value(b[q - 1])
    }
}

/// How many hex digits stand in `b[p..q]`, underscores skipped.
pub open spec fn hex_count(b: Seq<char>, p: int, q: int) -> int
    decreases q - p,
{
    if q <= p {
        0
    } else if b[q - 1] == '_' {
        hex_count(b, p, q - 1)
    } else {
        hex_count(b, p, q - 1) + 1
    }
}

pub open spec fn pow16(n: nat) -> int
    decreases n,
{
    if n == 0 {
        1
    } else {
        16 * pow16((n - 1) as nat)
    }
}

/// `c` put in front of a resolved text; a failure stays one.
pub open spec fn cons(c: char, r: Option<Seq<char>>) -> Option<Seq<char>> {
    match r {
        Some(t) => Some(seq![c] + t),
        None => None,
    }
}

/// The characters of `b` from `i` on with their escapes resolved, or `None`
/// where an escape is invalid.
pub open spec fn unescape(b: Seq<char>, i: int) -> Option<Seq<char>>
    decreases b.len() - i,
    via unescape_decreases
{
    if !(0 <= i < b.len()) {
        Some(seq![])
    } else if b[i] != '\\' {
        cons(b[i], unescape(b, i + 1))
    } else if i + 1 >= b.len() {
        None
    } else {
        let e = b[i + 1];
        match simple_escape(e) {
            Some(x) => cons(x, unescape(b, i + 2)),
            None => if e == '\n' {
                unescape(b, skip_ws(b, i + 2))
            } else if e == 'x' {
                if i + 3 < b.len() && is_hex(b[i + 2]) && is_hex(b[i + 3]) && hex_value(b[i + 2])
                    <= 7 {
                    cons(
                        (hex_value(b[i + 2]) * 16 + hex_value(b[i + 3])) as char,
                        unescape(b, i + 4),
                    )
                } else {
                    None
                }
            } else if e == 'u' {
                let q = digits_end(b, i + 3);
                if i + 3 < b.len() && b[i + 2] == '{' && is_hex(b[i + 3]) && q < b.len() && b[q]
                    == '}' && hex_count(b, i + 3, q) <= 6 && is_scalar(hex_num(b, i + 3, q)) {
                    cons(hex_num(b, i + 3, q) as char, unescape(b, q + 1))
                } else {
                    None
                }
            } else {
                None
            },
        }
    }
}

proof fn lemma_digits_end(b: Seq<char>, p: int)
    ensures
        digits_end(b, p) >= p,
        0 <= p <= b.len() ==> digits_end(b, p) <= b.len(),
    decreases b.len() - p,
{
    if 0 <= p < b.len() && (is_hex(b[p]) || b[p] == '_') {
        lemma_digits_end(b, p + 1);
    }
}

#[via_fn]
proof fn unescape_decreases(b: Seq<char>, i: int) {
    lemma_skip_ws(b, i + 2);
    lemma_digits_end(b, i + 3);
}

/// The value of a plain literal whose characters between the quotes are `b`.
pub open spec fn plain_value(b: Seq<char>) -> Option<Seq<char>> {
    if b.contains('\r') {
        None
    } else {
        unescape(b, 0)
    }
}

/// The value of a raw literal whose characters between the quotes are `b`.
pub open spec fn raw_value(b: Seq<char>) -> Option<Seq<char>> {
    if b.contains('\r') {
        None
    } else {
        Some(b)
    }
}

/// `out` put in front of what remains to resolve.
spec fn after(out: Seq<char>, r: Option<Seq<char>>) -> Option<Seq<char>> {
    match r {
        Some(t) => Some(out + t),
        None => None,
    }
}

proof fn lemma_after_cons(out: Seq<char>, c: char, r: Option<Seq<char>>)
    ensures
        after(out, cons(c, r)) == after(out + seq![c], r),
{
    if let Some(t) = r {
        assert(out + (seq![c] + t) =~= (out + seq![c]) + t);
    }
}

fn hex_digit(c: char) -> (r: Option<u32>)
    ensures
        r is Some <==> is_hex(c),
        r matches Some(d) ==> d == hex_value(c) && d < 16,
{
    if '0' <= c && c <= '9' {
        Some(c as u32 - '0' as u32)
    } else if 'a' <= c && c <= 'f' {
        Some(c as u32 - 'a' as u32 + 10)
    } else if 'A' <= c && c <= 'F' {
        Some(c as u32 - 'A' as u32 + 10)
    } else {
        None
    }
}

fn simple_escape_of(e: char) -> (r: Option<char>)
    ensures
        r == simple_escape(e),
{
    if e == 'n' {
        Some('\n')
    } else if e == 'r' {
        Some('\r')
    } else if e == 't' {
        Some('\t')
    } else if e == '\\' {
        Some('\\')
    } else if e == '0' {
        Some('\0')
    } else if e == '\'' {
        Some('\'')
    } else if e == '"' {
        Some('"')
    } else {
        None
    }
}

/// The first position at or after `p` that holds neither a hex digit nor an
/// underscore.
fn digits_to(b: &str, n: usize, p: usize) -> (r: usize)
    requires
        n == b@.len(),
        p <= n,
    ensures
        r == digits_end(b@, p as int),
        p <= r <= n,
{
    let mut k = p;
    while k < n && (hex_digit(b.get_char(k)).is_some() || b.get_char(k) == '_')
        invariant
            p <= k <= n,
            n == b@.len(),
            digits_end(b@, k as int) == digits_end(b@, p as int),
        decreases n - k,
    {
        k = k + 1;
    }
    k
}

/// The number that the hex digits in `b[p..q]` spell, or `None` where there
/// are more than six of them.
fn hex_scan(b: &str, n: usize, p: usize, q: usize) -> (r: Option<u32>)
    requires
        n == b@.len(),
        p <= q <= n,
        digits_end(b@, p as int) == q,
    ensures
        r is Some <==> hex_count(b@, p as int, q as int) <= 6,
        r matches Some(v) ==> v == hex_num(b@, p as int, q as int),
{
    let mut k = p;
    let mut acc: u32 = 0;
    let mut count: usize = 0;
    while k < q
        invariant
            p <= k <= q,
            q <= n,
            n == b@.len(),
            digits_end(b@, k as int) == q,
            acc == hex_num(b@, p as int, k as int),
            count == hex_count(b@, p as int, k as int),
            count <= 6,
            acc < pow16(count as nat),
        decreases q - k,
    {
        let c = b.get_char(k);
        assert(hex_num(b@, p as int, k + 1) == if c == '_' {
            hex_num(b@, p as int, k as int)
        } else {
            hex_num(b@, p as int, k as int) * 16 + hex_value(c)
        });
        if c != '_' {
            let d = match hex_digit(c) {
                Some(d) => d,
                None => {
                    return None;
                },
            };
            if count == 6 {
                proof {
                    lemma_count_grows(b@, p as int, k + 1, q as int);
                }
                return None;
            }
            proof {
                reveal_with_fuel(pow16, 7);
                assert(acc * 16 + d < pow16(count as nat) * 16) by (nonlinear_arith)
                    requires
                        acc < pow16(count as nat),
                        d < 16,
                ;
                assert(pow16((count + 1) as nat) == 16 * pow16(count as nat));
                assert(pow16((count + 1) as nat) <= 0x1000000);
            }
            acc = acc * 16 + d;
            count = count + 1;
        }
        k = k + 1;
    }
    Some(acc)
}

proof fn lemma_count_grows(b: Seq<char>, p: int, k: int, q: int)
    requires
        p <= k <= q,
    ensures
        hex_count(b, p, q) >= hex_count(b, p, k),
    decreases q - k,
{
    if k < q {
        lemma_count_grows(b, p, k, q - 1);
    }
}

/// Whether `b` holds a carriage return.
fn holds_carriage_return(b: &str) -> (r: bool)
    ensures
        r == b@.contains('\r'),
{
    let n = b.unicode_len();
    let mut k: usize = 0;
    while k < n
        invariant
            k <= n,
            n == b@.len(),
            forall|t: int| 0 <= t < k ==> b@[t] != '\r',
        decreases n - k,
    {
        if b.get_char(k) == '\r' {
            return true;
        }
        k = k + 1;
    }
    false
}

/// The characters of `b` with their escapes resolved, or `None` where an
/// escape is invalid.
fn unescape_text(b: &str) -> (r: Option<String>)
    ensures
        r is Some <==> unescape(b@, 0) is Some,
        r matches Some(v) ==> unescape(b@, 0) == Some(v@),
{
    let n = b.unicode_len();
    let mut out = String::new();
    let mut i: usize = 0;
    assert(seq![] + unescape(b@, 0)->Some_0 =~= unescape(b@, 0)->Some_0);
    loop
        invariant
            i <= n,
            n == b@.len(),
            unescape(b@, 0) == after(out@, unescape(b@, i as int)),
        decreases n - i,
    {
        if i >= n {
            assert(out@ + seq![] =~= out@);
            return Some(out);
        }
        let c = b.get_char(i);
        if c != '\\' {
            proof {
                lemma_after_cons(out@, c, unescape(b@, i + 1));
            }
            out.append(char_text(c).as_str());
            i = i + 1;
        } else if i + 1 >= n {
            return None;
        } else {
            let e = b.get_char(i + 1);
            match simple_escape_of(e) {
                Some(x) => {
                    proof {
                        lemma_after_cons(out@, x, unescape(b@, i + 2));
                    }
                    out.append(char_text(x).as_str());
                    i = i + 2;
                },
                None => {
                    if e == '\n' {
                        i = skip_whitespace(b, n, i + 2);
                    } else if e == 'x' {
                        if !(n - i > 3) {
                            return None;
                        }
                        let (d1, d2) = match (hex_digit(b.get_char(i + 2)), hex_digit(b.get_char(i + 3))) {
                            (Some(d1), Some(d2)) => (d1, d2),
                            _ => {
                                return None;
                            },
                        };
                        if d1 > 7 {
                            return None;
                        }
                        let v: u8 = (d1 * 16 + d2) as u8;
                        let ch = v as char;
                        proof {
                            lemma_after_cons(out@, ch, unescape(b@, i + 4));
                        }
                        out.append(char_text(ch).as_str());
                        i = i + 4;
                    } else if e == 'u' {
                        if !(n - i > 3 && b.get_char(i + 2) == '{' && hex_digit(b.get_char(i + 3)).is_some()) {
                            return None;
                        }
                        let q = digits_to(b, n, i + 3);
                        if !(q < n && b.get_char(q) == '}') {
                            return None;
                        }
                        let v = match hex_scan(b, n, i + 3, q) {
                            Some(v) => v,
                            None => {
                                return None;
                            },
                        };
                        let ch = match char_from_scalar(v) {
                            Some(ch) => ch,
                            None => {
                                return None;
                            },
                        };
                        proof {
                            lemma_after_cons(out@, ch, unescape(b@, q + 1));
                        }
                        out.append(char_text(ch).as_str());
                        i = q + 1;
                    } else {
                        return None;
                    }
                },
            }
        }
    }
}

/// The value of a plain literal whose characters between the quotes are `b`.
pub(crate) fn plain_literal_value(b: &str) -> (r: Option<String>)
    ensures
        r is Some <==> plain_value(b@) is Some,
        r matches Some(v) ==> plain_value(b@) == Some(v@),
{
    if holds_carriage_return(b) {
        None
    } else {
        unescape_text(b)
    }
}

/// The value of a raw literal whose characters between the quotes are `b`.
pub(crate) fn raw_literal_value(b: &str) -> (r: Option<String>)
    ensures
        r is Some <==> raw_value(b@) is Some,
        r matches Some(v) ==> raw_value(b@) == Some(v@),
{
    if holds_carriage_return(b) {
        None
    } else {
        Some(b.to_owned())
    }
}

} // verus!
