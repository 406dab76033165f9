//! What identifiers, string literals, punctuators and groups are, and what
//! one call of the lexer yields.
//!
//! Positions are character indices into the source `s`.
use crate::classify::{decimal_digit_char, punct_char};
use crate::diagnostic::{label_locs, Diagnostic, ErrorCode, LabelStyle};
use crate::number::{
    digits_value, fits_i64, float_text, number_outcome, number_scan, radix_of, signed, NumScan,
};
use crate::outside::{unescaped, xid_continue, xid_start, EscapeFault};
use crate::token::{Comment, TokenTree};
use crate::trivia::{
    after_spacing, block_unterminated, comments_between, lemma_trivia_end_stops, spacing_fails,
    spacing_of, token_outcome, trivia_end, unterminated_block_error,
};
use vstd::prelude::*;

verus! {

/// `c` continues an identifier: an ASCII letter, digit or `_`, or a
/// character beyond ASCII of Unicode's XID_Continue.
pub open spec fn iden_char(c: char) -> bool {
    if c <= '\u{7f}' {
        ('a' <= c <= 'z') || ('A' <= c <= 'Z') || ('0' <= c <= '9') || c == '_'
    } else {
        xid_continue(c)
    }
}

/// The end of the run of identifier characters from `j`.
pub open spec fn iden_end(s: Seq<char>, j: int) -> int
    decreases s.len() - j,
{
    if 0 <= j < s.len() && iden_char(s[j]) {
        iden_end(s, j + 1)
    } else {
        j
    }
}

/// Where the string literal whose content starts at `j` closes with the
/// quote `q`: the index of that quote, or the length of the source if the
/// literal never closes. A backslash takes the next character with it.
pub open spec fn string_close(s: Seq<char>, j: int, q: char) -> int
    decreases s.len() - j,
{
    if j < 0 || j >= s.len() {
        s.len() as int
    } else if s[j] == q {
        j
    } else if s[j] == '\\' {
        if j + 1 >= s.len() {
            s.len() as int
        } else {
            string_close(s, j + 2, q)
        }
    } else {
        string_close(s, j + 1, q)
    }
}

/// `c` starts an identifier: an ASCII letter or `_`, or a character beyond
/// ASCII of Unicode's XID_Start.
pub open spec fn iden_start(c: char) -> bool {
    if c <= '\u{7f}' {
        ('a' <= c <= 'z') || ('A' <= c <= 'Z') || c == '_'
    } else {
        xid_start(c)
    }
}

/// `c` opens a group.
pub open spec fn opener(c: char) -> bool {
    c == '{' || c == '[' || c == '('
}

/// `c` closes a group.
pub open spec fn closer(c: char) -> bool {
    c == '}' || c == ']' || c == ')'
}

/// The character that closes a group opened by `c`.
pub open spec fn closer_of(c: char) -> char {
    if c == '{' {
        '}'
    } else if c == '[' {
        ']'
    } else {
        ')'
    }
}

/// `c` opens a string literal.
pub open spec fn quote(c: char) -> bool {
    c == '"' || c == '\''
}

/// A `-` at `j` that belongs to the number after it.
pub open spec fn negative_number_at(s: Seq<char>, j: int) -> bool {
    0 <= j && j + 1 < s.len() && s[j] == '-' && decimal_digit_char(s[j + 1])
}

/// The comments that a token takes: those that were `pending`, then those of
/// the trivia from `i` to `j`.
pub open spec fn takes_comments(
    s: Seq<char>,
    i: int,
    j: int,
    pending: Seq<Comment>,
    cs: Seq<Comment>,
) -> bool {
    &&& pending.len() <= cs.len()
    &&& cs.subrange(0, pending.len() as int) == pending
    &&& comments_between(s, i, j, cs.subrange(pending.len() as int, cs.len() as int))
}

/// The comments a result carries: those of its token, if it is one.
pub open spec fn result_comments(r: Result<TokenTree, Diagnostic>) -> Seq<Comment> {
    match r {
        Ok(t) => t.comments_spec(),
        Err(_) => Seq::empty(),
    }
}

/// Where the numeric literal whose first digit is at `p` ends, if it is
/// well formed and its value fits; `st` is where it starts.
pub open spec fn number_end(s: Seq<char>, st: int, p: int, negative: bool) -> Option<int> {
    match number_scan(s, st, p) {
        NumScan::Fail { .. } => None,
        NumScan::Int { end, kind, digits } => if fits_i64(
            negative,
            digits_value(s.subrange(digits, end), radix_of(kind)),
        ) {
            Some(end)
        } else {
            None
        },
        NumScan::Float { end } => Some(end),
    }
}

/// Where the string literal that starts at `j` ends, if it closes and its
/// escapes decode.
pub open spec fn string_end(s: Seq<char>, j: int) -> Option<int> {
    let c = string_close(s, j + 1, s[j]);
    if c >= s.len() {
        None
    } else if unescaped(s.subrange(j, c + 1)) is Ok {
        Some(c + 1)
    } else {
        None
    }
}

/// Where the token that starts at `j` ends, if scanning it, and the spacing
/// after it, succeeds.
pub open spec fn token_end(s: Seq<char>, j: int) -> Option<int>
    decreases s.len() - j, 0int,
{
    if 0 <= j < s.len() {
        let c = s[j];
        let e = if iden_start(c) {
            Some(iden_end(s, j + 1))
        } else if negative_number_at(s, j) {
            number_end(s, j, j + 1, true)
        } else if punct_char(c) || closer(c) {
            Some(j + 1)
        } else if decimal_digit_char(c) {
            number_end(s, j, j, false)
        } else if quote(c) {
            string_end(s, j)
        } else if opener(c) {
            group_end(s, j + 1, closer_of(c))
        } else {
            None
        };
        match e {
            Some(e) => if spacing_fails(s, e) {
                None
            } else {
                Some(e)
            },
            None => None,
        }
    } else {
        None
    }
}

/// Where the group whose content goes on at `k` ends (just after its
/// `close`), if every token inside it succeeds and the closer comes.
pub open spec fn group_end(s: Seq<char>, k: int, close: char) -> Option<int>
    decreases s.len() - k, 1int,
{
    let k2 = trivia_end(s, k);
    if k < 0 || k2 < k || k2 >= s.len() || block_unterminated(s, k2) {
        None
    } else if s[k2] == close {
        Some(k2 + 1)
    } else {
        match token_end(s, k2) {
            None => None,
            Some(e) => {
                let a = after_spacing(s, e);
                if k2 < a <= s.len() {
                    group_end(s, a, close)
                } else {
                    None
                }
            },
        }
    }
}

/// `t` is the numeric literal whose first digit is at `p`, starting at
/// `st`: its kind and value, or its text.
pub open spec fn number_is(s: Seq<char>, st: int, p: int, negative: bool, t: TokenTree) -> bool {
    match number_scan(s, st, p) {
        NumScan::Int { end, kind, digits } => match t {
            TokenTree::Int(x) => x.kind == kind && x.value == signed(
                negative,
                digits_value(s.subrange(digits, end), radix_of(kind)),
            ),
            _ => false,
        },
        NumScan::Float { end } => match t {
            TokenTree::Float(x) => x.value@ == float_text(s, p, end, negative),
            _ => false,
        },
        NumScan::Fail { .. } => false,
    }
}

/// `t` is the token that the source determines at `j`, once the trivia
/// before it is skipped: its location, kind, value and spacing, and for a
/// group the tokens inside it. (Comments are not part of it.)
pub open spec fn token_is(s: Seq<char>, j: int, t: TokenTree) -> bool
    decreases s.len() - j, 0int, 0int,
{
    if 0 <= j < s.len() {
        let c = s[j];
        let loc = t.loc_spec();
        &&& loc.start == j
        &&& token_end(s, j) == Some(loc.end as int)
        &&& t.spacing_spec() == spacing_of(s, loc.end as int)
        &&& if iden_start(c) {
            match t {
                TokenTree::Iden(x) => x.value@ == s.subrange(j, loc.end as int),
                _ => false,
            }
        } else if negative_number_at(s, j) {
            number_is(s, j, j + 1, true, t)
        } else if punct_char(c) || closer(c) {
            match t {
                TokenTree::Punct(x) => x.value == c,
                _ => false,
            }
        } else if decimal_digit_char(c) {
            number_is(s, j, j, false, t)
        } else if quote(c) {
            match t {
                TokenTree::Str(x) => unescaped(s.subrange(j, loc.end as int)) == Ok::<
                    Seq<char>,
                    EscapeFault,
                >(x.value@),
                _ => false,
            }
        } else if opener(c) {
            match t {
                TokenTree::Group(g) => {
                    &&& items_from(s, j + 1, closer_of(c), g.tokens@)
                    &&& loc.end == trivia_end(s, scan_pos(s, j + 1, g.tokens@)) + 1
                    &&& s[loc.end - 1] == closer_of(c)
                },
                _ => false,
            }
        } else {
            false
        }
    } else {
        false
    }
}

/// Where the scan of a group's content that started at `k0` stands after
/// the tokens `ts`: after the spacing of the last of them.
pub open spec fn scan_pos(s: Seq<char>, k0: int, ts: Seq<TokenTree>) -> int {
    if ts.len() == 0 {
        k0
    } else {
        after_spacing(s, ts.last().loc_spec().end as int)
    }
}

/// `ts` are, in order, the first tokens that lexing the content of a group
/// from `k0` yields, none of them reached at `close` or at the end.
pub open spec fn items_from(s: Seq<char>, k0: int, close: char, ts: Seq<TokenTree>) -> bool
    decreases s.len() - k0, 1int, ts.len(),
{
    if ts.len() == 0 {
        true
    } else {
        let p = trivia_end(s, scan_pos(s, k0, ts.drop_last()));
        &&& items_from(s, k0, close, ts.drop_last())
        &&& p < s.len()
        &&& !block_unterminated(s, p)
        &&& s[p] != close
        &&& if k0 <= p {
            token_is(s, p, ts.last())
        } else {
            false
        }
    }
}

/// The scan of a group's content from `k` reaches the end of the source
/// before the closer, every token before that succeeding.
pub open spec fn group_eof(s: Seq<char>, k: int, close: char) -> bool
    decreases s.len() - k,
{
    let k2 = trivia_end(s, k);
    if k < 0 || k2 < k {
        false
    } else if k2 >= s.len() {
        true
    } else if block_unterminated(s, k2) || s[k2] == close {
        false
    } else {
        match token_end(s, k2) {
            None => false,
            Some(e) => {
                let a = after_spacing(s, e);
                if k2 < a <= s.len() {
                    group_eof(s, a, close)
                } else {
                    false
                }
            },
        }
    }
}

/// What scanning the identifier at `j` gives.
pub open spec fn iden_outcome(
    s: Seq<char>,
    j: int,
    r: Result<TokenTree, Diagnostic>,
    idx: int,
    after: Seq<Comment>,
) -> bool {
    let e = iden_end(s, j + 1);
    &&& token_outcome(s, e, result_comments(r), r, idx, after)
    &&& r is Ok ==> match r->Ok_0 {
        TokenTree::Iden(t) => t.loc.start == j && t.loc.end == e && t.value@ == s.subrange(j, e),
        _ => false,
    }
}

/// What scanning the punctuator at `j` gives.
pub open spec fn punct_outcome(
    s: Seq<char>,
    j: int,
    r: Result<TokenTree, Diagnostic>,
    idx: int,
    after: Seq<Comment>,
) -> bool {
    &&& token_outcome(s, j + 1, result_comments(r), r, idx, after)
    &&& r is Ok ==> match r->Ok_0 {
        TokenTree::Punct(t) => t.loc.start == j && t.loc.end == j + 1 && t.value == s[j],
        _ => false,
    }
}

/// What scanning the string literal at `j` gives.
pub open spec fn string_outcome(
    s: Seq<char>,
    j: int,
    r: Result<TokenTree, Diagnostic>,
    idx: int,
    after: Seq<Comment>,
) -> bool {
    let c = string_close(s, j + 1, s[j]);
    if c >= s.len() {
        &&& r is Err
        &&& r->Err_0.code == ErrorCode::UnterminatedString
        &&& label_locs(r->Err_0) == seq![(LabelStyle::Primary, j, s.len() as int)]
    } else {
        match unescaped(s.subrange(j, c + 1)) {
            Ok(v) => {
                &&& token_outcome(s, c + 1, result_comments(r), r, idx, after)
                &&& r is Ok ==> match r->Ok_0 {
                    TokenTree::Str(t) => t.loc.start == j && t.loc.end == c + 1 && t.value@ == v,
                    _ => false,
                }
            },
            Err(EscapeFault::InvalidEscape { index }) => {
                &&& r is Err
                &&& r->Err_0.code == ErrorCode::InvalidEscape
                &&& label_locs(r->Err_0) == seq![(LabelStyle::Primary, j + index, j + index)]
            },
            Err(EscapeFault::InvalidUnicode { index }) => {
                &&& r is Err
                &&& r->Err_0.code == ErrorCode::InvalidUnicodeEscape
                &&& label_locs(r->Err_0) == seq![(LabelStyle::Primary, j + index, j + index)]
            },
        }
    }
}

/// What scanning the group opened at `j` gives: a group exactly when every
/// token inside it succeeds and its closer comes; then it goes from its
/// opener through that closer, holds the tokens that lexing its content
/// yields, and the spacing of the source after its closer follows. If the
/// source ends first, the error says so.
pub open spec fn group_outcome(
    s: Seq<char>,
    j: int,
    r: Result<TokenTree, Diagnostic>,
    idx: int,
    after: Seq<Comment>,
) -> bool {
    &&& (r is Ok <==> token_end(s, j) is Some)
    &&& group_eof(s, j + 1, closer_of(s[j])) ==> {
        &&& r is Err
        &&& r->Err_0.code == ErrorCode::UnterminatedGroup
        &&& label_locs(r->Err_0) == seq![
            (LabelStyle::Primary, s.len() as int, s.len() as int),
            (LabelStyle::Secondary, j, j),
        ]
    }
    &&& r is Ok ==> match r->Ok_0 {
        TokenTree::Group(g) => {
            &&& token_is(s, j, r->Ok_0)
            &&& j + 2 <= g.loc.end <= s.len()
            &&& !spacing_fails(s, g.loc.end as int)
            &&& idx == after_spacing(s, g.loc.end as int)
        },
        _ => false,
    }
}

/// What one call of the lexer from `i`, with the comments `pending`, yields:
/// nothing at the end of the source, else the token or the error that
/// starts after the trivia from `i`. The lexer then stands at `idx`, with
/// the comments `after` pending.
pub open spec fn step_outcome(
    s: Seq<char>,
    i: int,
    pending: Seq<Comment>,
    r: Option<Result<TokenTree, Diagnostic>>,
    idx: int,
    after: Seq<Comment>,
) -> bool {
    let j = trivia_end(s, i);
    if block_unterminated(s, j) {
        r is Some && r->Some_0 is Err && unterminated_block_error(s, j, r->Some_0->Err_0)
    } else if j >= s.len() {
        r is None && idx == j && takes_comments(s, i, j, pending, after)
    } else {
        let c = s[j];
        &&& r is Some
        &&& (r->Some_0 is Ok <==> token_end(s, j) is Some)
        &&& r->Some_0 is Ok ==> takes_comments(s, i, j, pending, result_comments(r->Some_0))
        &&& r->Some_0 is Ok ==> {
            let loc = r->Some_0->Ok_0.loc_spec();
            &&& token_is(s, j, r->Some_0->Ok_0)
            &&& loc.start == j
            &&& token_end(s, j) == Some(loc.end as int)
            &&& loc.start < loc.end
            &&& idx == after_spacing(s, loc.end as int)
            &&& idx <= s.len()
        }
        &&& if iden_start(c) {
            iden_outcome(s, j, r->Some_0, idx, after)
        } else if negative_number_at(s, j) {
            number_outcome(s, j, j + 1, true, result_comments(r->Some_0), r->Some_0, idx, after)
        } else if punct_char(c) || closer(c) {
            punct_outcome(s, j, r->Some_0, idx, after)
        } else if decimal_digit_char(c) {
            number_outcome(s, j, j, false, result_comments(r->Some_0), r->Some_0, idx, after)
        } else if quote(c) {
            string_outcome(s, j, r->Some_0, idx, after)
        } else if opener(c) {
            group_outcome(s, j, r->Some_0, idx, after)
        } else {
            &&& r->Some_0 is Err
            &&& r->Some_0->Err_0.code == ErrorCode::InvalidCharacter
            &&& label_locs(r->Some_0->Err_0) == seq![(LabelStyle::Primary, j, j)]
        }
    }
}

/// One step of the scan of a group's content from `k`.
pub proof fn lemma_group_end_unfold(s: Seq<char>, k: int, close: char)
    requires
        0 <= k <= s.len(),
    ensures
        ({
            let k2 = trivia_end(s, k);
            &&& k <= k2 <= s.len()
            &&& (k2 >= s.len() || block_unterminated(s, k2)) ==> group_end(s, k, close) is None
            &&& k2 >= s.len() ==> group_eof(s, k, close)
            &&& (k2 < s.len() && (block_unterminated(s, k2) || s[k2] == close)) ==> !group_eof(
                s,
                k,
                close,
            )
            &&& (k2 < s.len() && !block_unterminated(s, k2) && s[k2] != close) ==> group_eof(
                s,
                k,
                close,
            ) == match token_end(s, k2) {
                None => false,
                Some(e) => if k2 < after_spacing(s, e) <= s.len() {
                    group_eof(s, after_spacing(s, e), close)
                } else {
                    false
                },
            }
            &&& (k2 < s.len() && !block_unterminated(s, k2) && s[k2] == close) ==> group_end(
                s,
                k,
                close,
            ) == Some(k2 + 1)
            &&& (k2 < s.len() && !block_unterminated(s, k2) && s[k2] != close) ==> group_end(
                s,
                k,
                close,
            ) == match token_end(s, k2) {
                None => None,
                Some(e) => if k2 < after_spacing(s, e) <= s.len() {
                    group_end(s, after_spacing(s, e), close)
                } else {
                    None
                },
            }
        }),
{
    lemma_trivia_end_stops(s, k);
}

/// What the scan of a group opened at `j` gives, in terms of the scan of its
/// content.
pub proof fn lemma_token_end_group(s: Seq<char>, j: int)
    requires
        0 <= j < s.len(),
        opener(s[j]),
    ensures
        token_end(s, j) == match group_end(s, j + 1, closer_of(s[j])) {
            Some(e) => if spacing_fails(s, e) {
                None
            } else {
                Some(e)
            },
            None => None,
        },
{
}

/// A token that the content of a group yields where its scan stands
/// extends the tokens before it.
pub proof fn lemma_items_push(
    s: Seq<char>,
    k0: int,
    close: char,
    ts: Seq<TokenTree>,
    t: TokenTree,
)
    requires
        items_from(s, k0, close, ts),
        ({
            let p = trivia_end(s, scan_pos(s, k0, ts));
            &&& k0 <= p < s.len()
            &&& !block_unterminated(s, p)
            &&& s[p] != close
            &&& token_is(s, p, t)
        }),
    ensures
        items_from(s, k0, close, ts.push(t)),
        scan_pos(s, k0, ts.push(t)) == after_spacing(s, t.loc_spec().end as int),
{
    assert(ts.push(t).drop_last() =~= ts);
}

} // verus!
