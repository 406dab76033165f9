//! Classes of characters.
use vstd::prelude::*;

verus! {

/// A line breaking character.
pub open spec fn line_break_char(c: char) -> bool {
    c == '\u{000A}' || c == '\u{000B}' || c == '\u{000C}' || c == '\u{000D}' || c == '\u{0085}'
        || c == '\u{2028}' || c == '\u{2029}'
}

/// A whitespace character that breaks no line.
pub open spec fn whitespace_char(c: char) -> bool {
    c == '\u{0009}' || c == '\u{0020}' || c == '\u{00A0}' || c == '\u{1680}' || ('\u{2000}' <= c
        && c <= '\u{200A}') || c == '\u{202F}' || c == '\u{205F}' || c == '\u{3000}'
}

/// A character that the lexer skips between tokens: the characters of
/// Unicode's White_Space property.
pub open spec fn trivia_char(c: char) -> bool {
    whitespace_char(c) || line_break_char(c)
}

/// A punctuation character.
pub open spec fn punct_char(c: char) -> bool {
    c == '!' || c == '@' || c == '#' || c == '$' || c == '%' || c == '&' || c == '*' || c == ';'
        || c == ':' || c == ',' || c == '.' || c == '<' || c == '>' || c == '/' || c == '|' || c
        == '-' || c == '=' || c == '+' || c == '?' || c == '~'
}

/// A decimal digit.
pub open spec fn decimal_digit_char(c: char) -> bool {
    '0' <= c && c <= '9'
}

/// A hexadecimal digit, in either case.
pub open spec fn hex_digit_char(c: char) -> bool {
    decimal_digit_char(c) || ('a' <= c && c <= 'f') || ('A' <= c && c <= 'F')
}

/// A binary digit.
pub open spec fn bin_digit_char(c: char) -> bool {
    c == '0' || c == '1'
}

/// The value of a hexadecimal (hence also decimal or binary) digit.
pub open spec fn digit_value(c: char) -> int {
    if decimal_digit_char(c) {
        c as int - '0' as int
    } else if 'a' <= c && c <= 'f' {
        c as int - 'a' as int + 10
    } else {
        c as int - 'A' as int + 10
    }
}

} // verus!
