//! The calls that the lexer makes into other crates.
use snailquote::{unescape, UnescapeError};
use unicode_xid::UnicodeXID;
use vstd::prelude::*;

verus! {

/// Whether a character has Unicode's XID_Start property.
pub uninterp spec fn xid_start(c: char) -> bool;

/// Whether a character has Unicode's XID_Continue property.
pub uninterp spec fn xid_continue(c: char) -> bool;

/// What decoding the escapes of a quoted text gives: the decoded text, or
/// where and how decoding failed.
pub uninterp spec fn unescaped(s: Seq<char>) -> Result<Seq<char>, EscapeFault>;

/// Why the escapes of a quoted text could not be decoded.
#[derive(Clone, Copy, Debug, PartialEq, Eq, Structural)]
pub enum EscapeFault {
    /// An unknown escape, or a backslash that ends the text; `index` is the
    /// character index of what follows the backslash (or of the backslash).
    InvalidEscape { index: usize },
    /// A `\u` escape that does not parse; `index` is the character index of
    /// the `u`.
    InvalidUnicode { index: usize },
}

/// Relies on unicode_xid's `UnicodeXID::is_xid_start` for `char`: among
/// ASCII characters, exactly the letters have the property.
#[verifier::external_body]
pub(crate) fn is_xid_start(c: char) -> (r: bool)
    ensures
        r == xid_start(c),
        c <= '\u{7f}' ==> (r <==> ('a' <= c <= 'z' || 'A' <= c <= 'Z')),
{
    UnicodeXID::is_xid_start(c)
}

/// Relies on unicode_xid's `UnicodeXID::is_xid_continue` for `char`: among
/// ASCII characters, exactly the letters, the digits and `_` have the
/// property.
#[verifier::external_body]
pub(crate) fn is_xid_continue(c: char) -> (r: bool)
    ensures
        r == xid_continue(c),
        c <= '\u{7f}' ==> (r <==> ('a' <= c <= 'z' || 'A' <= c <= 'Z' || '0' <= c <= '9' || c
            == '_')),
{
    UnicodeXID::is_xid_continue(c)
}

/// Relies on snailquote's `unescape`: the result depends on the text alone,
/// and an error's index is that of a character of the text.
#[verifier::external_body]
pub(crate) fn unescape_text(s: &str) -> (r: Result<String, EscapeFault>)
    ensures
        match r {
            Ok(v) => unescaped(s@) == Ok::<Seq<char>, EscapeFault>(v@),
            Err(e) => unescaped(s@) == Err::<Seq<char>, EscapeFault>(e),
        },
        match r {
            Err(EscapeFault::InvalidEscape { index }) => index < s@.len(),
            Err(EscapeFault::InvalidUnicode { index }) => index < s@.len(),
            _ => true,
        },
{
    match unescape(s) {
        Ok(v) => Ok(v),
        Err(UnescapeError::InvalidEscape { index, .. }) => Err(EscapeFault::InvalidEscape { index }),
        Err(UnescapeError::InvalidUnicode { index, .. }) => Err(
            EscapeFault::InvalidUnicode { index },
        ),
    }
}

/// Relies on std's `FromIterator<&char>` for `String`: the string holds the
/// characters in order.
#[verifier::external_body]
pub(crate) fn string_of(v: &[char]) -> (r: String)
    ensures
        r@ == v@,
{
    v.iter().collect()
}

} // verus!
