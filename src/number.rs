//! What a numeric literal is: its extent, its kind and its value.
//!
//! Positions are character indices into the source `s`.
use crate::classify::{bin_digit_char, decimal_digit_char, digit_value, hex_digit_char};
use crate::diagnostic::{ErrorCode, LabelStyle};
use crate::diagnostic::{label_locs, Diagnostic};
use crate::token::{Comment, IntKind, TokenTree};
use crate::trivia::token_outcome;
use vstd::prelude::*;

verus! {

/// The radix in which an integer literal of the given kind is written.
pub open spec fn radix_of(kind: IntKind) -> int {
    match kind {
        IntKind::Decimal => 10,
        IntKind::Hexadecimal => 16,
        IntKind::Binary => 2,
    }
}

/// `c` is a digit in the radix of `kind`.
pub open spec fn kind_digit(c: char, kind: IntKind) -> bool {
    match kind {
        IntKind::Decimal => decimal_digit_char(c),
        IntKind::Hexadecimal => hex_digit_char(c),
        IntKind::Binary => bin_digit_char(c),
    }
}

/// The end of the run of digits of `kind` and separators (`_`) that starts
/// at `j`.
pub open spec fn digits_end(s: Seq<char>, j: int, kind: IntKind) -> int
    decreases s.len() - j,
{
    if 0 <= j < s.len() && (kind_digit(s[j], kind) || s[j] == '_') {
        digits_end(s, j + 1, kind)
    } else {
        j
    }
}

/// The value of the digits `v` in radix `r`, digit separators (`_`) skipped.
pub open spec fn digits_value(v: Seq<char>, r: int) -> int
    decreases v.len(),
{
    if v.len() == 0 {
        0
    } else if v.last() == '_' {
        digits_value(v.drop_last(), r)
    } else {
        digits_value(v.drop_last(), r) * r + digit_value(v.last())
    }
}

/// `v` without its digit separators (`_`).
pub open spec fn without_separators(v: Seq<char>) -> Seq<char>
    decreases v.len(),
{
    if v.len() == 0 {
        v
    } else if v.last() == '_' {
        without_separators(v.drop_last())
    } else {
        without_separators(v.drop_last()).push(v.last())
    }
}

/// A magnitude that, with the given sign, fits in an `i64`.
pub open spec fn fits_i64(negative: bool, m: int) -> bool {
    if negative {
        m <= 0x8000_0000_0000_0000
    } else {
        m <= 0x7fff_ffff_ffff_ffff
    }
}

/// A magnitude with the given sign.
pub open spec fn signed(negative: bool, m: int) -> int {
    if negative {
        -m
    } else {
        m
    }
}

/// Where the digits, separators and single `.` of a decimal literal that
/// starts at `j` end, and whether a `.` was among them.
pub open spec fn mantissa_end(s: Seq<char>, j: int, is_float: bool) -> (int, bool)
    decreases s.len() - j,
{
    if j < 0 || j >= s.len() {
        (j, is_float)
    } else if decimal_digit_char(s[j]) || s[j] == '_' {
        mantissa_end(s, j + 1, is_float)
    } else if s[j] == '.' && !is_float {
        mantissa_end(s, j + 1, true)
    } else {
        (j, is_float)
    }
}

/// What a numeric literal turns out to be, before its value is checked.
pub enum NumScan {
    /// An integer of the given kind whose digits run from `digits` to `end`.
    Int { end: int, kind: IntKind, digits: int },
    /// A floating-point literal that ends at `end`.
    Float { end: int },
    /// A malformed literal.
    Fail { code: ErrorCode, labels: Seq<(LabelStyle, int, int)> },
}

/// The exponent of a float whose marker (`e` or `E`) is at `m`; `st` is
/// where the literal starts.
pub open spec fn exponent_scan(s: Seq<char>, st: int, m: int) -> NumScan {
    let k = if m + 1 < s.len() && (s[m + 1] == '+' || s[m + 1] == '-') {
        m + 2
    } else {
        m + 1
    };
    if m + 1 >= s.len() || k >= s.len() {
        NumScan::Fail { code: ErrorCode::MissingExponent, labels: seq![(LabelStyle::Primary, st, k)] }
    } else if !decimal_digit_char(s[k]) {
        NumScan::Fail { code: ErrorCode::InvalidExponent, labels: seq![(LabelStyle::Primary, st, k)] }
    } else {
        NumScan::Float { end: digits_end(s, k, IntKind::Decimal) }
    }
}

/// What the numeric literal whose first digit is at `p` is; `st` is where
/// the literal starts (at `p`, or at the `-` before it).
pub open spec fn number_scan(s: Seq<char>, st: int, p: int) -> NumScan {
    if s[p] == '0' && p + 1 < s.len() && (s[p + 1] == 'x' || s[p + 1] == 'b') {
        let kind = if s[p + 1] == 'x' {
            IntKind::Hexadecimal
        } else {
            IntKind::Binary
        };
        let h = digits_end(s, p + 2, kind);
        if !(p + 2 < s.len() && kind_digit(s[p + 2], kind)) {
            NumScan::Fail {
                code: ErrorCode::MissingRadixDigits,
                labels: seq![(LabelStyle::Primary, p, p + 2)],
            }
        } else {
            NumScan::Int { end: h, kind, digits: p + 2 }
        }
    } else {
        let (m, is_float) = mantissa_end(s, p, false);
        if m < s.len() && (s[m] == 'e' || s[m] == 'E') {
            if !is_float {
                NumScan::Fail {
                    code: ErrorCode::ExponentOnInteger,
                    labels: seq![(LabelStyle::Primary, st, m)],
                }
            } else if s[m - 1] == '.' {
                NumScan::Fail {
                    code: ErrorCode::ExponentAfterDot,
                    labels: seq![
                        (LabelStyle::Primary, st, m + 1),
                        (LabelStyle::Secondary, m - 1, m - 1),
                    ],
                }
            } else {
                exponent_scan(s, st, m)
            }
        } else if is_float {
            NumScan::Float { end: m }
        } else {
            NumScan::Int { end: m, kind: IntKind::Decimal, digits: p }
        }
    }
}

} // verus!

verus! {

/// The text of a float literal: its sign, then its characters from `p` to
/// `end` without separators.
pub open spec fn float_text(s: Seq<char>, p: int, end: int, negative: bool) -> Seq<char> {
    let sign = if negative {
        seq!['-']
    } else {
        Seq::<char>::empty()
    };
    sign + without_separators(s.subrange(p, end))
}

/// What scanning the numeric literal whose first digit is at `p` gives;
/// `st` is where the literal starts, and `negative` says whether a `-`
/// stands before it. The lexer then stands at `idx`, with the comments
/// `after` pending.
pub open spec fn number_outcome(
    s: Seq<char>,
    st: int,
    p: int,
    negative: bool,
    pending: Seq<Comment>,
    r: Result<TokenTree, Diagnostic>,
    idx: int,
    after: Seq<Comment>,
) -> bool {
    match number_scan(s, st, p) {
        NumScan::Fail { code, labels } => r is Err && r->Err_0.code == code && label_locs(r->Err_0)
            == labels,
        NumScan::Int { end, kind, digits } => {
            let m = digits_value(s.subrange(digits, end), radix_of(kind));
            if !fits_i64(negative, m) {
                &&& r is Err
                &&& r->Err_0.code == if kind == IntKind::Decimal {
                    ErrorCode::IntegerTooLarge
                } else {
                    ErrorCode::RadixIntegerTooLarge
                }
                &&& label_locs(r->Err_0) == seq![(LabelStyle::Primary, st, end)]
            } else {
                &&& token_outcome(s, end, pending, r, idx, after)
                &&& r is Ok ==> match r->Ok_0 {
                    TokenTree::Int(t) => {
                        &&& t.loc.start == st
                        &&& t.loc.end == end
                        &&& t.kind == kind
                        &&& t.value == signed(negative, m)
                    },
                    _ => false,
                }
            }
        },
        NumScan::Float { end } => {
            &&& token_outcome(s, end, pending, r, idx, after)
            &&& r is Ok ==> match r->Ok_0 {
                TokenTree::Float(t) => {
                    &&& t.loc.start == st
                    &&& t.loc.end == end
                    &&& t.value@ == float_text(s, p, end, negative)
                },
                _ => false,
            }
        },
    }
}

} // verus!
