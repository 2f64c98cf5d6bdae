//! Scalar coercions: base-10 integer tokens (with range checks at each
//! declared width) and the grammar of base-10 floating-point literals.
//! Failures are values, never panics: an out-of-range or malformed token is
//! reported to the caller.

use vstd::prelude::*;

use crate::schema::IntType;
use crate::text::{ieq, lo};

verus! {

/// Whether a character is a decimal digit.
pub open spec fn is_digit(c: char) -> bool {
    48 <= c as u32 && c as u32 <= 57
}

/// The value of a decimal digit.
pub open spec fn digit_val(c: char) -> int {
    c as u32 - 48
}

/// Whether every character of `s` is a decimal digit.
pub open spec fn all_digits(s: Seq<char>) -> bool {
    forall|i: int| 0 <= i < s.len() ==> is_digit(#[trigger] s[i])
}

/// The number denoted by a sequence of decimal digits, most significant
/// first.
pub open spec fn dec_val(s: Seq<char>) -> int
    decreases s.len(),
{
    if s.len() == 0 {
        0
    } else {
        dec_val(s.drop_last()) * 10 + digit_val(s.last())
    }
}

/// The integer a token denotes: an optional sign, then one or more digits;
/// `None` if the token has any other shape.
pub open spec fn int_token_val(s: Seq<char>) -> Option<int> {
    let i0: int = if s.len() > 0 && (s[0] == '+' || s[0] == '-') {
        1
    } else {
        0
    };
    let d = s.subrange(i0, s.len() as int);
    if d.len() > 0 && all_digits(d) {
        Some(
            if s.len() > 0 && s[0] == '-' {
                -dec_val(d)
            } else {
                dec_val(d)
            },
        )
    } else {
        None
    }
}

/// The smallest value a parameter of the given width accepts.
pub open spec fn int_min(t: IntType) -> int {
    match t {
        IntType::I8 => -0x80,
        IntType::I16 => -0x8000,
        IntType::I32 => -0x8000_0000,
        IntType::I64 => -0x8000_0000_0000_0000,
        IntType::I128 => -0x8000_0000_0000_0000_0000_0000_0000_0000,
        IntType::ISize => isize::MIN as int,
        IntType::U8 => 0,
        IntType::U16 => 0,
        IntType::U32 => 0,
        IntType::U64 => 0,
        IntType::U128 => 0,
        IntType::USize => 0,
    }
}

/// The largest value a parameter of the given width accepts.
pub open spec fn int_max(t: IntType) -> int {
    match t {
        IntType::I8 => 0x7f,
        IntType::I16 => 0x7fff,
        IntType::I32 => 0x7fff_ffff,
        IntType::I64 => 0x7fff_ffff_ffff_ffff,
        IntType::I128 => 0x7fff_ffff_ffff_ffff_ffff_ffff_ffff_ffff,
        IntType::ISize => isize::MAX as int,
        IntType::U8 => 0xff,
        IntType::U16 => 0xffff,
        IntType::U32 => 0xffff_ffff,
        IntType::U64 => 0xffff_ffff_ffff_ffff,
        IntType::U128 => 0xffff_ffff_ffff_ffff_ffff_ffff_ffff_ffff,
        IntType::USize => usize::MAX as int,
    }
}

/// Whether values of the given width carry a sign.
pub open spec fn is_signed(t: IntType) -> bool {
    match t {
        IntType::I8 => true,
        IntType::I16 => true,
        IntType::I32 => true,
        IntType::I64 => true,
        IntType::I128 => true,
        IntType::ISize => true,
        IntType::U8 => false,
        IntType::U16 => false,
        IntType::U32 => false,
        IntType::U64 => false,
        IntType::U128 => false,
        IntType::USize => false,
    }
}

pub proof fn lemma_dec_val_nonneg(s: Seq<char>)
    requires
        all_digits(s),
    ensures
        dec_val(s) >= 0,
    decreases s.len(),
{
    if s.len() > 0 {
        assert(all_digits(s.drop_last()));
        lemma_dec_val_nonneg(s.drop_last());
    }
}

/// Appending digits never shrinks the denoted number.
pub proof fn lemma_dec_val_prefix(s: Seq<char>, k: int)
    requires
        all_digits(s),
        0 <= k <= s.len(),
    ensures
        dec_val(s) >= dec_val(s.subrange(0, k)),
    decreases s.len() - k,
{
    if k < s.len() {
        lemma_dec_val_prefix(s, k + 1);
        let p = s.subrange(0, k + 1);
        assert(p.drop_last() =~= s.subrange(0, k));
        assert(all_digits(s.subrange(0, k)));
        lemma_dec_val_nonneg(s.subrange(0, k));
        assert(dec_val(p) == dec_val(s.subrange(0, k)) * 10 + digit_val(s[k]));
        assert(dec_val(s.subrange(0, k)) * 10 >= dec_val(s.subrange(0, k))) by (nonlinear_arith)
            requires
                dec_val(s.subrange(0, k)) >= 0,
        ;
    } else {
        assert(s.subrange(0, k) =~= s);
    }
}

/// Reads a run of digits as a number. `None` when the run is empty, holds a
/// non-digit, or denotes a number too large for any accepted width.
fn parse_digits(s: &str, start: usize) -> (r: Option<u128>)
    requires
        start <= s@.len(),
    ensures
        ({
            let d = s@.subrange(start as int, s@.len() as int);
            match r {
                Some(v) => d.len() > 0 && all_digits(d) && dec_val(d) == v as int,
                None => d.len() == 0 || !all_digits(d) || dec_val(d) > u128::MAX as int,
            }
        }),
{
    let ghost d = s@.subrange(start as int, s@.len() as int);
    let len = s.unicode_len();
    if start >= len {
        return None;
    }
    let mut acc: u128 = 0;
    let mut i = start;
    while i < len
        invariant
            start <= i <= len,
            start < len,
            len == s@.len(),
            d == s@.subrange(start as int, s@.len() as int),
            all_digits(s@.subrange(start as int, i as int)),
            acc as int == dec_val(s@.subrange(start as int, i as int)),
        decreases len - i,
    {
        let c = s.get_char(i);
        let u = c as u32;
        if !(48 <= u && u <= 57) {
            proof {
                assert(!is_digit(d[i - start]));
            }
            return None;
        }
        let dig = (u - 48) as u128;
        proof {
            let p = s@.subrange(start as int, i + 1);
            assert(p.drop_last() =~= s@.subrange(start as int, i as int));
            assert(dec_val(p) == acc as int * 10 + digit_val(s@[i as int]));
        }
        if acc > (u128::MAX - dig) / 10 {
            proof {
                let pre = s@.subrange(start as int, i + 1);
                assert(dec_val(pre) > u128::MAX as int) by (nonlinear_arith)
                    requires
                        dec_val(pre) == acc as int * 10 + digit_val(s@[i as int]),
                        digit_val(s@[i as int]) == dig as int,
                        acc > (u128::MAX - dig) / 10,
                        0 <= dig <= 9,
                ;
                if all_digits(d) {
                    assert(pre =~= d.subrange(0, i + 1 - start));
                    lemma_dec_val_prefix(d, i + 1 - start);
                }
            }
            return None;
        }
        proof {
            assert(acc * 10 + dig <= u128::MAX) by (nonlinear_arith)
                requires
                    acc <= (u128::MAX - dig) / 10,
                    0 <= dig <= 9,
            ;
        }
        acc = acc * 10 + dig;
        i += 1;
    }
    proof {
        assert(s@.subrange(start as int, i as int) =~= d);
    }
    Some(acc)
}

/// `None` covers both tokens that denote no integer and tokens whose value
/// no accepted width can hold.
pub open spec fn int_absent_or_huge(s: Seq<char>) -> bool {
    match int_token_val(s) {
        None => true,
        Some(v) => v > u128::MAX as int || v < -(u128::MAX as int),
    }
}

/// Reads a token as a sign and a magnitude.
pub fn parse_int_token(s: &str) -> (r: Option<(bool, u128)>)
    ensures
        match r {
            Some(p) => int_token_val(s@) == Some(
                if p.0 {
                    -(p.1 as int)
                } else {
                    p.1 as int
                },
            ),
            None => int_absent_or_huge(s@),
        },
{
    let len = s.unicode_len();
    if len == 0 {
        return None;
    }
    let c0 = s.get_char(0);
    let neg = c0 == '-';
    let start: usize = if c0 == '-' || c0 == '+' {
        1
    } else {
        0
    };
    match parse_digits(s, start) {
        None => {
            proof {
                let d = s@.subrange(start as int, s@.len() as int);
                if d.len() > 0 && all_digits(d) {
                    lemma_dec_val_nonneg(d);
                }
            }
            None
        },
        Some(mag) => Some((neg, mag)),
    }
}

/// Whether a signed magnitude fits the given width.
pub fn int_fits(t: IntType, neg: bool, mag: u128) -> (r: bool)
    ensures
        r == ({
            let v = if neg {
                -(mag as int)
            } else {
                mag as int
            };
            int_min(t) <= v <= int_max(t)
        }),
{
    match t {
        IntType::I8 => if neg {
            mag <= 0x80
        } else {
            mag <= 0x7f
        },
        IntType::I16 => if neg {
            mag <= 0x8000
        } else {
            mag <= 0x7fff
        },
        IntType::I32 => if neg {
            mag <= 0x8000_0000
        } else {
            mag <= 0x7fff_ffff
        },
        IntType::I64 => if neg {
            mag <= 0x8000_0000_0000_0000
        } else {
            mag <= 0x7fff_ffff_ffff_ffff
        },
        IntType::I128 => if neg {
            mag <= 0x8000_0000_0000_0000_0000_0000_0000_0000
        } else {
            mag <= 0x7fff_ffff_ffff_ffff_ffff_ffff_ffff_ffff
        },
        IntType::ISize => if neg {
            mag <= (isize::MAX as u128) + 1
        } else {
            mag <= isize::MAX as u128
        },
        IntType::U8 => !neg && mag <= 0xff || mag == 0,
        IntType::U16 => !neg && mag <= 0xffff || mag == 0,
        IntType::U32 => !neg && mag <= 0xffff_ffff || mag == 0,
        IntType::U64 => !neg && mag <= 0xffff_ffff_ffff_ffff || mag == 0,
        IntType::U128 => !neg || mag == 0,
        IntType::USize => !neg && mag <= usize::MAX as u128 || mag == 0,
    }
}

/// The states of the scanner for floating-point literals.
#[derive(Clone, Copy, Debug, PartialEq, Eq, Structural)]
pub enum FloatSt {
    /// Nothing read yet (past the sign).
    Start,
    /// Reading integer digits; at least one read.
    Int,
    /// A dot was read before any digit.
    DotOnly,
    /// Past the dot, with at least one digit somewhere in the mantissa.
    Frac,
    /// Just past `e` or `E`.
    ExpStart,
    /// Just past the exponent's sign.
    ExpSign,
    /// Reading exponent digits; at least one read.
    ExpDigits,
}

/// Whether the characters of `s` from `i` on, read in state `st`, complete a
/// floating-point literal.
pub open spec fn float_num_at(s: Seq<char>, i: int, st: FloatSt) -> bool
    decreases s.len() - i,
    when 0 <= i <= s.len()
{
    if i >= s.len() {
        st == FloatSt::Int || st == FloatSt::Frac || st == FloatSt::ExpDigits
    } else {
        let c = s[i];
        match st {
            FloatSt::Start => if is_digit(c) {
                float_num_at(s, i + 1, FloatSt::Int)
            } else if c == '.' {
                float_num_at(s, i + 1, FloatSt::DotOnly)
            } else {
                false
            },
            FloatSt::Int => if is_digit(c) {
                float_num_at(s, i + 1, FloatSt::Int)
            } else if c == '.' {
                float_num_at(s, i + 1, FloatSt::Frac)
            } else if c == 'e' || c == 'E' {
                float_num_at(s, i + 1, FloatSt::ExpStart)
            } else {
                false
            },
            FloatSt::DotOnly => if is_digit(c) {
                float_num_at(s, i + 1, FloatSt::Frac)
            } else {
                false
            },
            FloatSt::Frac => if is_digit(c) {
                float_num_at(s, i + 1, FloatSt::Frac)
            } else if c == 'e' || c == 'E' {
                float_num_at(s, i + 1, FloatSt::ExpStart)
            } else {
                false
            },
            FloatSt::ExpStart => if is_digit(c) {
                float_num_at(s, i + 1, FloatSt::ExpDigits)
            } else if c == '+' || c == '-' {
                float_num_at(s, i + 1, FloatSt::ExpSign)
            } else {
                false
            },
            FloatSt::ExpSign => if is_digit(c) {
                float_num_at(s, i + 1, FloatSt::ExpDigits)
            } else {
                false
            },
            FloatSt::ExpDigits => if is_digit(c) {
                float_num_at(s, i + 1, FloatSt::ExpDigits)
            } else {
                false
            },
        }
    }
}

/// Whether a token is a base-10 floating-point literal: an optional sign,
/// then digits with an optional dot and exponent, or one of the spellings
/// `inf`, `infinity` and `nan`, case-insensitively.
pub open spec fn is_float_token(s: Seq<char>) -> bool {
    let i0: int = if s.len() > 0 && (s[0] == '+' || s[0] == '-') {
        1
    } else {
        0
    };
    let b = s.subrange(i0, s.len() as int);
    ieq(b, "inf"@) || ieq(b, "infinity"@) || ieq(b, "nan"@) || float_num_at(s, i0, FloatSt::Start)
}

/// Decides whether a token is a floating-point literal.
pub fn is_float(s: &str) -> (r: bool)
    ensures
        r == is_float_token(s@),
{
    let len = s.unicode_len();
    let mut start: usize = 0;
    if len > 0 {
        let c0 = s.get_char(0);
        if c0 == '+' || c0 == '-' {
            start = 1;
        }
    }
    if crate::text::str_ieq_from(s, start, "inf") || crate::text::str_ieq_from(s, start, "infinity")
        || crate::text::str_ieq_from(s, start, "nan") {
        return true;
    }
    let mut st = FloatSt::Start;
    let mut i = start;
    while i < len
        invariant
            start <= i <= len,
            len == s@.len(),
            start as int == (if s@.len() > 0 && (s@[0] == '+' || s@[0] == '-') {
                1int
            } else {
                0int
            }),
            !ieq(s@.subrange(start as int, s@.len() as int), "inf"@),
            !ieq(s@.subrange(start as int, s@.len() as int), "infinity"@),
            !ieq(s@.subrange(start as int, s@.len() as int), "nan"@),
            float_num_at(s@, start as int, FloatSt::Start) == float_num_at(s@, i as int, st),
        decreases len - i,
    {
        let c = s.get_char(i);
        let u = c as u32;
        let dig = 48 <= u && u <= 57;
        let next = match st {
            FloatSt::Start => if dig {
                Some(FloatSt::Int)
            } else if c == '.' {
                Some(FloatSt::DotOnly)
            } else {
                None
            },
            FloatSt::Int => if dig {
                Some(FloatSt::Int)
            } else if c == '.' {
                Some(FloatSt::Frac)
            } else if c == 'e' || c == 'E' {
                Some(FloatSt::ExpStart)
            } else {
                None
            },
            FloatSt::DotOnly => if dig {
                Some(FloatSt::Frac)
            } else {
                None
            },
            FloatSt::Frac => if dig {
                Some(FloatSt::Frac)
            } else if c == 'e' || c == 'E' {
                Some(FloatSt::ExpStart)
            } else {
                None
            },
            FloatSt::ExpStart => if dig {
                Some(FloatSt::ExpDigits)
            } else if c == '+' || c == '-' {
                Some(FloatSt::ExpSign)
            } else {
                None
            },
            FloatSt::ExpSign => if dig {
                Some(FloatSt::ExpDigits)
            } else {
                None
            },
            FloatSt::ExpDigits => if dig {
                Some(FloatSt::ExpDigits)
            } else {
                None
            },
        };
        match next {
            None => {
                return false;
            },
            Some(n) => {
                st = n;
            },
        }
        i += 1;
    }
    matches!(st, FloatSt::Int | FloatSt::Frac | FloatSt::ExpDigits)
}

} // verus!
