//! Character-level helpers shared by the tokenizer, the resolver and the
//! scalar conversions: whitespace and quote classification, ASCII
//! case-insensitive comparison, and the permissive boolean vocabulary.

use vstd::prelude::*;

verus! {

/// Whitespace characters that separate tokens.
pub open spec fn is_ws(c: char) -> bool {
    c == ' ' || c == '\t' || c == '\n' || c == '\r'
}

/// Characters that may open (and close) a quoted token.
pub open spec fn is_quote(c: char) -> bool {
    c == '"' || c == '\''
}

/// The character's scalar value with ASCII upper-case letters folded to
/// lower case. Case-insensitive comparison compares these values.
pub open spec fn lo(c: char) -> int {
    if 65 <= c as u32 && c as u32 <= 90 {
        c as u32 + 32
    } else {
        c as u32 as int
    }
}

/// ASCII case-insensitive equality of two character sequences.
pub open spec fn ieq(a: Seq<char>, b: Seq<char>) -> bool {
    a.len() == b.len() && (forall|i: int| 0 <= i < a.len() ==> lo(a[i]) == lo(b[i]))
}

/// The permissive boolean vocabulary: which boolean, if any, a token spells.
pub open spec fn bool_token(s: Seq<char>) -> Option<bool> {
    if ieq(s, "1"@) || ieq(s, "t"@) || ieq(s, "true"@) || ieq(s, "y"@) || ieq(s, "yes"@)
        || ieq(s, "yeah"@) {
        Some(true)
    } else if ieq(s, "0"@) || ieq(s, "f"@) || ieq(s, "false"@) || ieq(s, "n"@) || ieq(s, "no"@)
        || ieq(s, "nah"@) {
        Some(false)
    } else {
        None
    }
}

/// Case folding of one character, for comparisons.
pub fn lo_char(c: char) -> (r: u32)
    ensures
        r as int == lo(c),
{
    let u = c as u32;
    if 65 <= u && u <= 90 {
        u + 32
    } else {
        u
    }
}

/// Whether a character is token-separating whitespace.
pub fn ws_char(c: char) -> (r: bool)
    ensures
        r == is_ws(c),
{
    c == ' ' || c == '\t' || c == '\n' || c == '\r'
}

/// Whether a character is an ASCII letter or digit.
pub fn alnum_char(c: char) -> (r: bool)
    ensures
        r == crate::parse::is_alnum(c),
{
    let u = c as u32;
    (48 <= u && u <= 57) || (65 <= u && u <= 90) || (97 <= u && u <= 122)
}

/// ASCII case-insensitive equality of two strings.
pub fn str_ieq(a: &str, b: &str) -> (r: bool)
    ensures
        r == ieq(a@, b@),
{
    let alen = a.unicode_len();
    let blen = b.unicode_len();
    if alen != blen {
        return false;
    }
    let mut i: usize = 0;
    while i < alen
        invariant
            alen == a@.len(),
            blen == b@.len(),
            alen == blen,
            0 <= i <= alen,
            forall|j: int| 0 <= j < i ==> lo(a@[j]) == lo(b@[j]),
        decreases alen - i,
    {
        if lo_char(a.get_char(i)) != lo_char(b.get_char(i)) {
            return false;
        }
        i += 1;
    }
    true
}

/// ASCII case-insensitive equality of the characters of `a` from `i0` on
/// with the whole of `b`.
pub fn str_ieq_from(a: &str, i0: usize, b: &str) -> (r: bool)
    requires
        i0 <= a@.len(),
    ensures
        r == ieq(a@.subrange(i0 as int, a@.len() as int), b@),
{
    let alen = a.unicode_len();
    let blen = b.unicode_len();
    if alen - i0 != blen {
        return false;
    }
    let mut i: usize = 0;
    while i < blen
        invariant
            i0 <= alen,
            alen == a@.len(),
            blen == b@.len(),
            alen - i0 == blen,
            0 <= i <= blen,
            forall|j: int| 0 <= j < i ==> lo(a@[i0 + j]) == lo(b@[j]),
        decreases blen - i,
    {
        if lo_char(a.get_char(i0 + i)) != lo_char(b.get_char(i)) {
            return false;
        }
        i += 1;
    }
    true
}

/// Appends one character to a string.
///
/// Relies on String::push: appends the given char to the end of the string.
#[verifier::external_body]
pub(crate) fn push_char(s: &mut String, c: char)
    ensures
        final(s)@ == old(s)@.push(c),
{
    s.push(c);
}

} // verus!
