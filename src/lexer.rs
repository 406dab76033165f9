//! The lexer: its state, the character classes it reads, and the trivia it
//! skips between tokens.
use crate::classify::{
    bin_digit_char, decimal_digit_char, digit_value, hex_digit_char, line_break_char, punct_char,
    trivia_char, whitespace_char,
};
use crate::diagnostic::{label_locs, Diagnostic, ErrorCode, LabelStyle};
use crate::literal::{
    closer_of, group_end, group_outcome, iden_char, iden_end, iden_outcome, iden_start,
    lemma_group_end_unfold, lemma_token_end_group, opener, punct_outcome, group_eof, items_from,
    lemma_items_push, scan_pos, token_is,
    result_comments, step_outcome, string_close, string_outcome, token_end,
};
use crate::number::{
    digits_end, digits_value, fits_i64, float_text, kind_digit, mantissa_end, number_outcome,
    radix_of, signed, without_separators,
};
use crate::outside::{
    is_xid_continue, is_xid_start, string_of, unescape_text, xid_continue, xid_start, EscapeFault,
};
use crate::token::{
    Comment, CommentKind, Float, Group, Iden, Int, IntKind, Punct, Skipped, Spacing, Str, TokenTree,
};
use crate::trivia::{
    after_spacing, after_token, block_close, block_unterminated, comment_at, comments_between,
    lemma_advances, lemma_between_extend, lemma_trivia_end_stops, line_end, skippable,
    spacing_fails, spacing_stop, starts_block_comment, breaks_line, has_break, starts_line_comment, starts_trivia,
    token_outcome, trim_end_at, trim_start_at, trimmed, trivia_end, unit_end,
    unterminated_block_error,
};
use vstd::prelude::*;
use vstd::string::*;

verus! {

/// Cherry's lexer.
///
/// It reads one source text from start to end, one token per call of
/// [`Lexer::next`]. Keywords are read as identifiers.
pub struct Lexer {
    /// The characters of the source.
    chars: Vec<char>,
    /// The index of the next character to read.
    idx: usize,
    /// The comments met since the last token, which the next token takes.
    comments: Vec<Comment>,
    /// Set once the source is exhausted or an error was reported.
    finished: bool,
}

proof fn lemma_push_tail(pre: Seq<Comment>, n: int, c: Comment)
    requires
        0 <= n <= pre.len(),
    ensures
        pre.push(c).subrange(n, pre.len() + 1 as int) == pre.subrange(n, pre.len() as int).push(c),
        pre.push(c).subrange(0, n) == pre.subrange(0, n),
{
    assert(pre.push(c).subrange(n, pre.len() + 1 as int) =~= pre.subrange(n, pre.len() as int).push(c));
    assert(pre.push(c).subrange(0, n) =~= pre.subrange(0, n));
}

/// The value of more digits is at least the value of fewer.
proof fn lemma_value_grows(v: Seq<char>, r: int, k: int)
    requires
        0 <= k <= v.len(),
        2 <= r,
        forall|i: int| 0 <= i < v.len() ==> 0 <= #[trigger] digit_value(v[i]) || v[i] == '_',
    ensures
        digits_value(v.subrange(0, k), r) <= digits_value(v, r),
        digits_value(v.subrange(0, k), r) >= 0,
    decreases v.len(),
{
    if v.len() == 0 {
        assert(v.subrange(0, k) =~= v);
    } else {
        let kk = if k == v.len() {
            k - 1
        } else {
            k
        };
        lemma_value_grows(v.drop_last(), r, kk);
        assert(v.drop_last().subrange(0, kk) =~= v.subrange(0, kk));
        let a = digits_value(v.drop_last(), r);
        if v.last() != '_' {
            assert(a * r + digit_value(v.last()) >= a) by (nonlinear_arith)
                requires
                    a >= 0,
                    r >= 2,
                    digit_value(v.last()) >= 0,
            ;
        }
        if k == v.len() {
            assert(v.subrange(0, k) =~= v);
        }
    }
}

impl Lexer {
    /// The characters of the source.
    pub closed spec fn text(&self) -> Seq<char> {
        self.chars@
    }

    /// The index of the next character to read.
    pub closed spec fn pos(&self) -> int {
        self.idx as int
    }

    /// The comments that wait for the next token.
    pub closed spec fn pending(&self) -> Seq<Comment> {
        self.comments@
    }

    /// Whether the lexer yields nothing more.
    pub closed spec fn finished(&self) -> bool {
        self.finished
    }

    /// The lexer stands within its source.
    pub closed spec fn wf(&self) -> bool {
        self.idx <= self.chars.len()
    }

    /// Starts a lexer at the beginning of `source`.
    pub fn new(source: &str) -> (r: Lexer)
        ensures
            r.wf(),
            r.text() == source@,
            r.pos() == 0,
            r.pending() == Seq::<Comment>::empty(),
            !r.finished(),
    {
        let mut chars: Vec<char> = Vec::new();
        for c in it: source.chars()
            invariant
                chars@ == it.seq().subrange(0, it.index() as int),
        {
            chars.push(c);
            assert(chars@ =~= it.seq().subrange(0, it.index() + 1));
        }
        assert(chars@ =~= source@);
        Lexer { chars, idx: 0, comments: Vec::new(), finished: false }
    }

    /// Whether `c` breaks a line.
    pub fn is_line_break(c: char) -> (r: bool)
        ensures
            r == line_break_char(c),
    {
        c == '\u{000A}' || c == '\u{000B}' || c == '\u{000C}' || c == '\u{000D}' || c == '\u{0085}'
            || c == '\u{2028}' || c == '\u{2029}'
    }

    /// Whether `c` is whitespace that breaks no line.
    pub fn is_whitespace(c: char) -> (r: bool)
        ensures
            r == whitespace_char(c),
    {
        c == '\u{0009}' || c == '\u{0020}' || c == '\u{00A0}' || c == '\u{1680}' || ('\u{2000}' <= c
            && c <= '\u{200A}') || c == '\u{202F}' || c == '\u{205F}' || c == '\u{3000}'
    }

    /// Whether `c` starts an identifier: a character of Unicode's XID_Start,
    /// or `_`.
    pub fn is_iden(c: char) -> (r: bool)
        ensures
            r == (xid_start(c) || c == '_'),
            r == iden_start(c),
    {
        is_xid_start(c) || c == '_'
    }

    /// Whether `c` continues an identifier: a character of Unicode's
    /// XID_Continue.
    fn is_iden_char(c: char) -> (r: bool)
        ensures
            r == xid_continue(c),
            r == iden_char(c),
    {
        is_xid_continue(c)
    }

    /// Whether `c` is a punctuator.
    pub fn is_punct(c: char) -> (r: bool)
        ensures
            r == punct_char(c),
    {
        c == '!' || c == '@' || c == '#' || c == '$' || c == '%' || c == '&' || c == '*' || c
            == ';' || c == ':' || c == ',' || c == '.' || c == '<' || c == '>' || c == '/' || c
            == '|' || c == '-' || c == '=' || c == '+' || c == '?' || c == '~'
    }

    /// Whether `c` is a decimal digit.
    pub fn is_digit(c: char) -> (r: bool)
        ensures
            r == decimal_digit_char(c),
    {
        '0' <= c && c <= '9'
    }

    /// Whether `c` is a hexadecimal digit.
    pub fn is_hex_digit(c: char) -> (r: bool)
        ensures
            r == hex_digit_char(c),
    {
        ('0' <= c && c <= '9') || ('a' <= c && c <= 'f') || ('A' <= c && c <= 'F')
    }

    /// Whether `c` is a binary digit.
    pub fn is_bin_digit(c: char) -> (r: bool)
        ensures
            r == bin_digit_char(c),
    {
        c == '0' || c == '1'
    }

    fn is_trivia(c: char) -> (r: bool)
        ensures
            r == trivia_char(c),
    {
        Lexer::is_whitespace(c) || Lexer::is_line_break(c)
    }

    /// The characters from `from` to `to`, trimmed.
    fn trimmed_text(&self, from: usize, to: usize) -> (r: String)
        requires
            from <= to <= self.chars.len(),
        ensures
            r@ == trimmed(self.chars@.subrange(from as int, to as int)),
    {
        let ghost v = self.chars@.subrange(from as int, to as int);
        let mut a = from;
        while a < to && Lexer::is_trivia(self.chars[a])
            invariant
                from <= a <= to <= self.chars.len(),
                v == self.chars@.subrange(from as int, to as int),
                trim_start_at(v, 0) == trim_start_at(v, a - from),
            decreases to - a,
        {
            a = a + 1;
        }
        let mut b = to;
        while b > a && Lexer::is_trivia(self.chars[b - 1])
            invariant
                from <= a <= b <= to <= self.chars.len(),
                v == self.chars@.subrange(from as int, to as int),
                trim_start_at(v, 0) == a - from,
                trim_end_at(v, a - from, to - from) == trim_end_at(v, a - from, b - from),
            decreases b - a,
        {
            b = b - 1;
        }
        assert(self.chars@.subrange(a as int, b as int) =~= v.subrange(a - from, b - from));
        self.text_between(a, b)
    }

    /// Skips the line comment at the current position.
    fn skip_line_comment(&mut self) -> (c: Comment)
        requires
            old(self).wf(),
            starts_line_comment(old(self).chars@, old(self).idx as int),
        ensures
            final(self).idx >= old(self).idx,
            final(self).wf(),
            final(self).chars == old(self).chars,
            final(self).comments == old(self).comments,
            final(self).finished == old(self).finished,
            comment_at(old(self).chars@, old(self).idx as int, c),
            final(self).idx == unit_end(old(self).chars@, old(self).idx as int),
    {
        let ghost s = self.chars@;
        let start = self.idx;
        self.idx = self.idx + 2;
        let mut doc = false;
        if self.idx < self.chars.len() && self.chars[self.idx] == '/' {
            doc = true;
            self.idx = self.idx + 1;
        }
        let body = self.idx;
        while self.idx < self.chars.len() && self.chars[self.idx] != '\n'
            invariant
                self.chars == old(self).chars,
                self.comments == old(self).comments,
                self.finished == old(self).finished,
                self.chars@ == s,
                body <= self.idx <= self.chars.len(),
                line_end(s, body as int) == line_end(s, self.idx as int),
            decreases self.chars.len() - self.idx,
        {
            self.idx = self.idx + 1;
        }
        let value = self.trimmed_text(body, self.idx);
        Comment {
            loc: start..self.idx,
            value,
            kind: if doc {
                CommentKind::Doc
            } else {
                CommentKind::Line
            },
        }
    }

    /// Skips the block comment at the current position.
    fn skip_block_comment(&mut self) -> (r: Result<Comment, Diagnostic>)
        requires
            old(self).wf(),
            starts_block_comment(old(self).chars@, old(self).idx as int),
        ensures
            final(self).idx >= old(self).idx,
            final(self).wf(),
            final(self).chars == old(self).chars,
            final(self).comments == old(self).comments,
            final(self).finished == old(self).finished,
            match r {
                Ok(c) => {
                    &&& !block_unterminated(old(self).chars@, old(self).idx as int)
                    &&& comment_at(old(self).chars@, old(self).idx as int, c)
                    &&& final(self).idx == unit_end(old(self).chars@, old(self).idx as int)
                },
                Err(d) => {
                    &&& block_unterminated(old(self).chars@, old(self).idx as int)
                    &&& unterminated_block_error(old(self).chars@, old(self).idx as int, d)
                },
            },
    {
        let ghost s = self.chars@;
        let start = self.idx;
        let body = start + 2;
        self.idx = body;
        while self.idx < self.chars.len() && self.idx + 1 < self.chars.len() && !(self.chars[self.idx]
            == '*' && self.chars[self.idx + 1] == '/')
            invariant
                self.chars == old(self).chars,
                self.comments == old(self).comments,
                self.finished == old(self).finished,
                self.chars@ == s,
                body <= self.idx <= self.chars.len(),
                block_close(s, body as int) == block_close(s, self.idx as int),
            decreases self.chars.len() - self.idx,
        {
            self.idx = self.idx + 1;
        }
        if !(self.idx < self.chars.len() && self.idx + 1 < self.chars.len()) {
            let n = self.chars.len();
            self.idx = n;
            return Err(
                Diagnostic::primary_secondary(
                    ErrorCode::UnterminatedBlockComment,
                    "block comment never ends",
                    n,
                    n,
                    "expected block comment to end here",
                    start,
                    start + 2,
                    "help: block comment started here",
                ),
            );
        }
        let close = self.idx;
        let value = self.trimmed_text(body, close);
        self.idx = close + 2;
        Ok(Comment { loc: start..self.idx, value, kind: CommentKind::Block })
    }

    /// Skips one unit of trivia, if one starts at the current position, and
    /// says what it was.
    fn skip_token(&mut self) -> (r: Result<Skipped, Diagnostic>)
        requires
            old(self).wf(),
        ensures
            final(self).idx >= old(self).idx,
            final(self).wf(),
            final(self).chars == old(self).chars,
            final(self).comments == old(self).comments,
            final(self).finished == old(self).finished,
            ({
                let s = old(self).chars@;
                let i = old(self).idx as int;
                match r {
                    Ok(Skipped::Nothing) => !starts_trivia(s, i) && final(self).idx == i,
                    Ok(Skipped::Whitespace) => {
                        &&& i < s.len()
                        &&& whitespace_char(s[i])
                        &&& final(self).idx == i + 1
                    },
                    Ok(Skipped::LineBreak) => {
                        &&& i < s.len()
                        &&& line_break_char(s[i])
                        &&& final(self).idx == i + 1
                    },
                    Ok(Skipped::Comment(c)) => {
                        &&& skippable(s, i)
                        &&& !trivia_char(s[i])
                        &&& comment_at(s, i, c)
                        &&& final(self).idx == unit_end(s, i)
                    },
                    Err(d) => block_unterminated(s, i) && unterminated_block_error(s, i, d),
                }
            }),
    {
        if self.idx >= self.chars.len() {
            return Ok(Skipped::Nothing);
        }
        let first = self.chars[self.idx];
        if Lexer::is_whitespace(first) {
            self.idx = self.idx + 1;
            return Ok(Skipped::Whitespace);
        }
        if Lexer::is_line_break(first) {
            self.idx = self.idx + 1;
            return Ok(Skipped::LineBreak);
        }
        if first == '/' && self.idx + 1 < self.chars.len() {
            let second = self.chars[self.idx + 1];
            if second == '/' {
                return Ok(Skipped::Comment(self.skip_line_comment()));
            } else if second == '*' {
                let res = self.skip_block_comment();
                return match res {
                    Ok(c) => Ok(Skipped::Comment(c)),
                    Err(d) => Err(d),
                };
            }
        }
        Ok(Skipped::Nothing)
    }

    /// Skips all trivia up to the next token or the end of the source,
    /// keeping the comments met for the next token.
    fn skip(&mut self) -> (r: Result<(), Diagnostic>)
        requires
            old(self).wf(),
        ensures
            final(self).wf(),
            final(self).idx >= old(self).idx,
            final(self).chars == old(self).chars,
            final(self).finished == old(self).finished,
            ({
                let s = old(self).chars@;
                let i = old(self).idx as int;
                let n = old(self).comments@.len();
                match r {
                    Ok(()) => {
                        &&& final(self).idx == trivia_end(s, i)
                        &&& !block_unterminated(s, trivia_end(s, i))
                        &&& n <= final(self).comments@.len()
                        &&& final(self).comments@.subrange(0, n as int) == old(self).comments@
                        &&& comments_between(
                            s,
                            i,
                            trivia_end(s, i),
                            final(self).comments@.subrange(n as int, final(self).comments@.len() as int),
                        )
                    },
                    Err(d) => {
                        &&& block_unterminated(s, trivia_end(s, i))
                        &&& unterminated_block_error(s, trivia_end(s, i), d)
                    },
                }
            }),
    {
        let ghost s = self.chars@;
        let ghost i0 = self.idx as int;
        let ghost n = self.comments@.len() as int;
        loop
            invariant
                self.wf(),
                self.chars == old(self).chars,
                self.finished == old(self).finished,
                self.chars@ == s,
                s == old(self).chars@,
                i0 == old(self).idx,
                i0 <= self.idx,
                trivia_end(s, i0) == trivia_end(s, self.idx as int),
                n == old(self).comments@.len(),
                n <= self.comments@.len(),
                self.comments@.subrange(0, n) == old(self).comments@,
                comments_between(
                    s,
                    i0,
                    self.idx as int,
                    self.comments@.subrange(n, self.comments@.len() as int),
                ),
            decreases self.chars.len() - self.idx,
        {
            let ghost before = self.comments@.subrange(n, self.comments@.len() as int);
            let ghost at = self.idx as int;
            let ghost cm = self.comments@;
            let res = self.skip_token();
            match res {
                Ok(Skipped::Comment(c)) => {
                    proof {
                        lemma_advances(s, at);
                        lemma_between_extend(s, i0, at, before, before.push(c), c);
                    }
                    proof {
                        lemma_push_tail(cm, n, c);
                    }
                    self.comments.push(c);
                },
                Ok(Skipped::Nothing) => {
                    assert(trivia_end(s, at) == at);
                    return Ok(());
                },
                Ok(_) => {
                    proof {
                        lemma_advances(s, at);
                        lemma_between_extend(s, i0, at, before, before, arbitrary());
                    }
                },
                Err(d) => {
                    assert(trivia_end(s, at) == at);
                    return Err(d);
                },
            }
        }
    }

    /// Skips the trivia after a token and says what spacing follows the
    /// token. A line break ends the scan; the comments met are kept for the
    /// next token.
    fn spacing(&mut self) -> (r: Result<Spacing, Diagnostic>)
        requires
            old(self).wf(),
        ensures
            final(self).wf(),
            final(self).idx >= old(self).idx,
            final(self).chars == old(self).chars,
            final(self).finished == old(self).finished,
            ({
                let s = old(self).chars@;
                let i = old(self).idx as int;
                let n = old(self).comments@.len();
                match r {
                    Ok(sp) => {
                        &&& n <= final(self).comments@.len()
                        &&& final(self).comments@.subrange(0, n as int) == old(self).comments@
                        &&& after_token(
                            s,
                            i,
                            sp,
                            final(self).idx as int,
                            final(self).comments@.subrange(n as int, final(self).comments@.len() as int),
                        )
                    },
                    Err(d) => {
                        &&& spacing_fails(s, i)
                        &&& unterminated_block_error(s, spacing_stop(s, i), d)
                    },
                }
            }),
    {
        let ghost s = self.chars@;
        let ghost i0 = self.idx as int;
        let ghost n = self.comments@.len() as int;
        let mut seen = false;
        loop
            invariant
                self.wf(),
                self.chars == old(self).chars,
                self.finished == old(self).finished,
                self.chars@ == s,
                s == old(self).chars@,
                i0 == old(self).idx,
                i0 <= self.idx,
                spacing_stop(s, i0) == spacing_stop(s, self.idx as int),
                seen == (self.idx > i0),
                n == old(self).comments@.len(),
                n <= self.comments@.len(),
                self.comments@.subrange(0, n) == old(self).comments@,
                comments_between(
                    s,
                    i0,
                    self.idx as int,
                    self.comments@.subrange(n, self.comments@.len() as int),
                ),
            decreases self.chars.len() - self.idx,
        {
            let ghost before = self.comments@.subrange(n, self.comments@.len() as int);
            let ghost at = self.idx as int;
            let ghost cm = self.comments@;
            let res = self.skip_token();
            match res {
                Ok(Skipped::Comment(c)) => {
                    proof {
                        lemma_advances(s, at);
                        lemma_between_extend(s, i0, at, before, before.push(c), c);
                    }
                    let breaks = self.holds_break(c.loc.start, c.loc.end);
                    let ghost pre = self.comments@;
                    self.comments.push(c);
                    seen = true;
                    proof {
                        lemma_push_tail(pre, n, c);
                    }
                    if breaks {
                        assert(spacing_stop(s, at) == at);
                        return Ok(Spacing::LineBreak);
                    }
                },
                Ok(Skipped::Whitespace) => {
                    proof {
                        lemma_advances(s, at);
                        lemma_between_extend(s, i0, at, before, before, arbitrary());
                    }
                    assert(!breaks_line(s, at)) by {
                        assert(!line_break_char(s[at]));
                    }
                    seen = true;
                },
                Ok(Skipped::LineBreak) => {
                    proof {
                        lemma_advances(s, at);
                        lemma_between_extend(s, i0, at, before, before, arbitrary());
                    }
                    assert(breaks_line(s, at)) by {
                        assert(line_break_char(s[at]));
                    }
                    assert(spacing_stop(s, at) == at);
                    return Ok(Spacing::LineBreak);
                },
                Ok(Skipped::Nothing) => {
                    assert(spacing_stop(s, at) == at);
                    if seen {
                        return Ok(Spacing::Whitespace);
                    } else {
                        return Ok(Spacing::Adjacent);
                    }
                },
                Err(d) => {
                    assert(spacing_stop(s, at) == at);
                    return Err(d);
                },
            }
        }
    }

    /// Whether a line breaking character stands from `a` to `b`.
    fn holds_break(&self, a: usize, b: usize) -> (r: bool)
        requires
            a <= b <= self.chars.len(),
        ensures
            r == has_break(self.chars@, a as int, b as int),
    {
        let mut k = a;
        while k < b
            invariant
                a <= k <= b <= self.chars.len(),
                forall|m: int| a <= m < k ==> !line_break_char(#[trigger] self.chars@[m]),
            decreases b - k,
        {
            if Lexer::is_line_break(self.chars[k]) {
                return true;
            }
            k = k + 1;
        }
        false
    }

    /// Hands out the comments that wait for the next token, and clears them.
    fn get_comments(&mut self) -> (r: Vec<Comment>)
        ensures
            r@ == old(self).comments@,
            final(self).comments@ == Seq::<Comment>::empty(),
            final(self).chars == old(self).chars,
            final(self).idx == old(self).idx,
            final(self).finished == old(self).finished,
    {
        let mut taken: Vec<Comment> = Vec::new();
        std::mem::swap(&mut taken, &mut self.comments);
        taken
    }

    /// Hands out the pending comments and scans the spacing after a token
    /// that ends at the current position.
    fn finish(&mut self) -> (r: Result<(Vec<Comment>, Spacing), Diagnostic>)
        requires
            old(self).wf(),
        ensures
            r is Ok ==> final(self).idx == after_spacing(old(self).chars@, old(self).idx as int),
            final(self).wf(),
            final(self).idx >= old(self).idx,
            final(self).chars == old(self).chars,
            final(self).finished == old(self).finished,
            match r {
                Ok((cs, sp)) => {
                    &&& cs@ == old(self).comments@
                    &&& after_token(
                        old(self).chars@,
                        old(self).idx as int,
                        sp,
                        final(self).idx as int,
                        final(self).comments@,
                    )
                },
                Err(d) => {
                    &&& spacing_fails(old(self).chars@, old(self).idx as int)
                    &&& unterminated_block_error(
                        old(self).chars@,
                        spacing_stop(old(self).chars@, old(self).idx as int),
                        d,
                    )
                },
            },
    {
        let comments = self.get_comments();
        let res = self.spacing();
        match res {
            Ok(sp) => {
                assert(self.comments@.subrange(0, self.comments@.len() as int) =~= self.comments@);
                Ok((comments, sp))
            },
            Err(d) => Err(d),
        }
    }

    /// The value of a digit.
    fn digit_of(c: char) -> (r: u32)
        requires
            hex_digit_char(c),
        ensures
            r == digit_value(c),
            r < 16,
    {
        if '0' <= c && c <= '9' {
            (c as u32) - ('0' as u32)
        } else if 'a' <= c && c <= 'f' {
            (c as u32) - ('a' as u32) + 10
        } else {
            (c as u32) - ('A' as u32) + 10
        }
    }

    /// Whether `c` is a digit of `kind`.
    fn is_kind_digit(c: char, kind: IntKind) -> (r: bool)
        ensures
            r == kind_digit(c, kind),
    {
        match kind {
            IntKind::Decimal => Lexer::is_digit(c),
            IntKind::Hexadecimal => Lexer::is_hex_digit(c),
            IntKind::Binary => Lexer::is_bin_digit(c),
        }
    }

    /// The end of the run of digits of `kind` and separators from `from`.
    fn digits_run(&self, from: usize, kind: IntKind) -> (r: usize)
        requires
            from <= self.chars.len(),
        ensures
            from <= r <= self.chars.len(),
            r == digits_end(self.chars@, from as int, kind),
            forall|k: int|
                from <= k < r ==> kind_digit(#[trigger] self.chars@[k], kind) || self.chars@[k]
                    == '_',
    {
        let mut j = from;
        while j < self.chars.len() && (Lexer::is_kind_digit(self.chars[j], kind) || self.chars[j]
            == '_')
            invariant
                from <= j <= self.chars.len(),
                digits_end(self.chars@, from as int, kind) == digits_end(self.chars@, j as int, kind),
                forall|k: int|
                    from <= k < j ==> kind_digit(#[trigger] self.chars@[k], kind) || self.chars@[k]
                        == '_',
            decreases self.chars.len() - j,
        {
            j = j + 1;
        }
        j
    }

    /// Where the digits, separators and single `.` of a decimal literal
    /// from `from` end, and whether a `.` was among them.
    fn mantissa(&self, from: usize) -> (r: (usize, bool))
        requires
            from <= self.chars.len(),
        ensures
            from <= r.0 <= self.chars.len(),
            (r.0 as int, r.1) == mantissa_end(self.chars@, from as int, false),
            r.1 ==> r.0 > from,
            (from < self.chars.len() && decimal_digit_char(self.chars@[from as int])) ==> r.0 > from,
            !r.1 ==> forall|k: int|
                from <= k < r.0 ==> decimal_digit_char(#[trigger] self.chars@[k]) || self.chars@[k]
                    == '_',
    {
        let mut j = from;
        let mut is_float = false;
        while j < self.chars.len()
            invariant
                from <= j <= self.chars.len(),
                mantissa_end(self.chars@, from as int, false) == mantissa_end(
                    self.chars@,
                    j as int,
                    is_float,
                ),
                is_float ==> j > from,
                !is_float ==> forall|k: int|
                    from <= k < j ==> decimal_digit_char(#[trigger] self.chars@[k])
                        || self.chars@[k] == '_',
            ensures
                from <= j <= self.chars.len(),
                (from < self.chars.len() && decimal_digit_char(self.chars@[from as int])) ==> j > from,
                mantissa_end(self.chars@, from as int, false) == (j as int, is_float),
                is_float ==> j > from,
                !is_float ==> forall|k: int|
                    from <= k < j ==> decimal_digit_char(#[trigger] self.chars@[k])
                        || self.chars@[k] == '_',
            decreases self.chars.len() - j,
        {
            let c = self.chars[j];
            if Lexer::is_digit(c) || c == '_' {
                j = j + 1;
            } else if c == '.' && !is_float {
                is_float = true;
                j = j + 1;
            } else {
                break;
            }
        }
        (j, is_float)
    }

    /// The magnitude of the digits from `from` to `to` in the radix of
    /// `kind`, if it is at most 2^63.
    fn magnitude(&self, from: usize, to: usize, kind: IntKind) -> (r: Option<u64>)
        requires
            from <= to <= self.chars.len(),
            forall|k: int|
                from <= k < to ==> kind_digit(#[trigger] self.chars@[k], kind) || self.chars@[k]
                    == '_',
        ensures
            ({
                let m = digits_value(
                    self.chars@.subrange(from as int, to as int),
                    radix_of(kind),
                );
                match r {
                    Some(v) => v == m && m <= 0x8000_0000_0000_0000,
                    None => m > 0x8000_0000_0000_0000,
                }
            }),
    {
        let radix: u128 = match kind {
            IntKind::Decimal => 10,
            IntKind::Hexadecimal => 16,
            IntKind::Binary => 2,
        };
        let ghost r = radix_of(kind);
        let mut acc: u128 = 0;
        let mut j = from;
        while j < to
            invariant
                from <= j <= to <= self.chars.len(),
                radix == r,
                r == radix_of(kind),
                2 <= r <= 16,
                forall|k: int|
                    from <= k < to ==> kind_digit(#[trigger] self.chars@[k], kind)
                        || self.chars@[k] == '_',
                acc <= 0x8000_0000_0000_0000,
                acc == digits_value(self.chars@.subrange(from as int, j as int), r),
            decreases to - j,
        {
            let c = self.chars[j];
            let ghost pre = self.chars@.subrange(from as int, j as int);
            assert(self.chars@.subrange(from as int, j + 1).drop_last() =~= pre);
            assert(self.chars@.subrange(from as int, j + 1).last() == c);
            j = j + 1;
            if c != '_' {
                assert(kind_digit(c, kind));
                let d = Lexer::digit_of(c);
                assert(d < r) by {
                    assert(kind_digit(c, kind));
                };
                assert(acc * radix + d as u128 <= 0x8000_0000_0000_0000 * 16 + 16) by (nonlinear_arith)
                    requires
                        acc <= 0x8000_0000_0000_0000,
                        radix <= 16,
                        d < 16,
                ;
                acc = acc * radix + d as u128;
                if acc > 0x8000_0000_0000_0000 {
                    proof {
                        lemma_value_grows(self.chars@.subrange(from as int, to as int), r, j - from);
                        assert(self.chars@.subrange(from as int, to as int).subrange(0, j - from)
                            =~= self.chars@.subrange(from as int, j as int));
                    }
                    return None;
                }
            }
        }
        assert(self.chars@.subrange(from as int, j as int) =~= self.chars@.subrange(
            from as int,
            to as int,
        ));
        Some(acc as u64)
    }

    /// Ends an integer literal from `st` to the current position, whose
    /// digits run from `from`.
    fn finish_int(&mut self, st: usize, from: usize, kind: IntKind, negative: bool) -> (r: Result<
        TokenTree,
        Diagnostic,
    >)
        requires
            old(self).wf(),
            st <= from <= old(self).idx,
            st < old(self).idx,
            forall|k: int|
                from <= k < old(self).idx ==> kind_digit(#[trigger] old(self).chars@[k], kind)
                    || old(self).chars@[k] == '_',
        ensures
            r is Ok ==> final(self).idx == after_spacing(old(self).chars@, r->Ok_0.loc_spec().end as int),
            r is Ok ==> final(self).idx >= r->Ok_0.loc_spec().end > r->Ok_0.loc_spec().start,
            final(self).wf(),
            final(self).chars == old(self).chars,
            final(self).finished == old(self).finished,
            ({
                let s = old(self).chars@;
                let end = old(self).idx as int;
                let m = digits_value(s.subrange(from as int, end), radix_of(kind));
                if !fits_i64(negative, m) {
                    &&& r is Err
                    &&& r->Err_0.code == if kind == IntKind::Decimal {
                        ErrorCode::IntegerTooLarge
                    } else {
                        ErrorCode::RadixIntegerTooLarge
                    }
                    &&& label_locs(r->Err_0) == seq![(LabelStyle::Primary, st as int, end)]
                } else {
                    &&& token_outcome(
                        s,
                        end,
                        old(self).comments@,
                        r,
                        final(self).idx as int,
                        final(self).comments@,
                    )
                    &&& r is Ok ==> match r->Ok_0 {
                        TokenTree::Int(t) => {
                            &&& t.loc.start == st
                            &&& t.loc.end == end
                            &&& t.kind == kind
                            &&& t.value == signed(negative, m)
                        },
                        _ => false,
                    }
                }
            }),
    {
        let end = self.idx;
        let code = match kind {
            IntKind::Decimal => ErrorCode::IntegerTooLarge,
            _ => ErrorCode::RadixIntegerTooLarge,
        };
        let value: i64 = match self.magnitude(from, end, kind) {
            None => {
                return Err(
                    Diagnostic::primary(
                        code,
                        "integer is too large",
                        st,
                        end,
                        "integer number is too large",
                    ),
                );
            },
            Some(m) => {
                if negative {
                    if m == 0x8000_0000_0000_0000 {
                        i64::MIN
                    } else {
                        -(m as i64)
                    }
                } else if m <= 0x7fff_ffff_ffff_ffff {
                    m as i64
                } else {
                    return Err(
                        Diagnostic::primary(
                            code,
                            "integer is too large",
                            st,
                            end,
                            "integer number is too large",
                        ),
                    );
                }
            },
        };
        let res = self.finish();
        match res {
            Ok((comments, spacing)) => Ok(
                TokenTree::Int(Int { loc: st..end, kind, value, comments, spacing }),
            ),
            Err(d) => Err(d),
        }
    }

    /// Ends a float literal from `st` to the current position, whose first
    /// digit is at `p`.
    fn finish_float(&mut self, st: usize, p: usize, negative: bool) -> (r: Result<
        TokenTree,
        Diagnostic,
    >)
        requires
            old(self).wf(),
            st <= p <= old(self).idx,
            st < old(self).idx,
        ensures
            r is Ok ==> final(self).idx == after_spacing(old(self).chars@, r->Ok_0.loc_spec().end as int),
            r is Ok ==> final(self).idx >= r->Ok_0.loc_spec().end > r->Ok_0.loc_spec().start,
            final(self).wf(),
            final(self).chars == old(self).chars,
            final(self).finished == old(self).finished,
            token_outcome(
                old(self).chars@,
                old(self).idx as int,
                old(self).comments@,
                r,
                final(self).idx as int,
                final(self).comments@,
            ),
            r is Ok ==> match r->Ok_0 {
                TokenTree::Float(t) => {
                    &&& t.loc.start == st
                    &&& t.loc.end == old(self).idx
                    &&& t.value@ == float_text(old(self).chars@, p as int, old(self).idx as int, negative)
                },
                _ => false,
            },
    {
        let end = self.idx;
        let ghost s = self.chars@;
        let mut text: Vec<char> = Vec::new();
        if negative {
            text.push('-');
        }
        let ghost sign = text@;
        let mut j = p;
        while j < end
            invariant
                p <= j <= end <= self.chars.len(),
                s == self.chars@,
                sign == if negative {
                    seq!['-']
                } else {
                    Seq::<char>::empty()
                },
                text@ == sign + without_separators(s.subrange(p as int, j as int)),
            decreases end - j,
        {
            let c = self.chars[j];
            assert(s.subrange(p as int, j + 1).drop_last() =~= s.subrange(p as int, j as int));
            if c != '_' {
                text.push(c);
            }
            j = j + 1;
            assert(text@ =~= sign + without_separators(s.subrange(p as int, j as int)));
        }
        let value = string_of(text.as_slice());
        let res = self.finish();
        match res {
            Ok((comments, spacing)) => Ok(
                TokenTree::Float(Float { loc: st..end, value, comments, spacing }),
            ),
            Err(d) => Err(d),
        }
    }

    /// Scans a numeric literal whose first digit is at the current position;
    /// `negative` says whether the `-` before it belongs to it.
    fn tokenize_number(&mut self, negative: bool) -> (r: Result<TokenTree, Diagnostic>)
        requires
            old(self).wf(),
            old(self).idx < old(self).chars.len(),
            decimal_digit_char(old(self).chars@[old(self).idx as int]),
            negative ==> old(self).idx >= 1 && old(self).chars@[old(self).idx - 1] == '-',
        ensures
            r is Ok ==> final(self).idx == after_spacing(old(self).chars@, r->Ok_0.loc_spec().end as int),
            r is Ok ==> final(self).idx >= r->Ok_0.loc_spec().end > r->Ok_0.loc_spec().start,
            r is Ok ==> r->Ok_0.loc_spec().start == if negative {
                old(self).idx - 1
            } else {
                old(self).idx as int
            },
            final(self).wf(),
            final(self).chars == old(self).chars,
            final(self).finished == old(self).finished,
            number_outcome(
                old(self).chars@,
                if negative {
                    old(self).idx - 1
                } else {
                    old(self).idx as int
                },
                old(self).idx as int,
                negative,
                old(self).comments@,
                r,
                final(self).idx as int,
                final(self).comments@,
            ),
    {
        let ghost s = self.chars@;
        let p = self.idx;
        let st = if negative {
            p - 1
        } else {
            p
        };
        let n = self.chars.len();
        if self.chars[p] == '0' && p + 1 < n && (self.chars[p + 1] == 'x' || self.chars[p + 1]
            == 'b') {
            let kind = if self.chars[p + 1] == 'x' {
                IntKind::Hexadecimal
            } else {
                IntKind::Binary
            };
            let from = p + 2;
            if !(from < n && Lexer::is_kind_digit(self.chars[from], kind)) {
                return Err(
                    Diagnostic::primary(
                        ErrorCode::MissingRadixDigits,
                        "no digits after the radix prefix",
                        p,
                        from,
                        "expected digits here",
                    ),
                );
            }
            let h = self.digits_run(from, kind);
            self.idx = h;
            return self.finish_int(st, from, kind, negative);
        }
        let (m, is_float) = self.mantissa(p);
        if m < n && (self.chars[m] == 'e' || self.chars[m] == 'E') {
            if !is_float {
                return Err(
                    Diagnostic::primary(
                        ErrorCode::ExponentOnInteger,
                        "integers may not have an exponent",
                        st,
                        m,
                        "integers may not have an exponent",
                    ),
                );
            }
            if self.chars[m - 1] == '.' {
                return Err(
                    Diagnostic::primary_secondary(
                        ErrorCode::ExponentAfterDot,
                        "exponent after `.`",
                        st,
                        m + 1,
                        "exponent cannot immediately follow `.`",
                        m - 1,
                        m - 1,
                        "try inserting a `0` after this `.`",
                    ),
                );
            }
            let k = if m + 1 < n && (self.chars[m + 1] == '+' || self.chars[m + 1] == '-') {
                m + 2
            } else {
                m + 1
            };
            if m + 1 >= n || k >= n {
                return Err(
                    Diagnostic::primary(
                        ErrorCode::MissingExponent,
                        "expected an exponent value",
                        st,
                        k,
                        "expected an exponent value",
                    ),
                );
            }
            if !Lexer::is_digit(self.chars[k]) {
                return Err(
                    Diagnostic::primary(
                        ErrorCode::InvalidExponent,
                        "expected a valid exponent value",
                        st,
                        k,
                        "expected a valid exponent value (a number)",
                    ),
                );
            }
            let e = self.digits_run(k, IntKind::Decimal);
            self.idx = e;
            return self.finish_float(st, p, negative);
        }
        self.idx = m;
        if is_float {
            self.finish_float(st, p, negative)
        } else {
            self.finish_int(st, p, IntKind::Decimal, negative)
        }
    }

    /// The characters from `from` to `to`, as a string.
    fn text_between(&self, from: usize, to: usize) -> (r: String)
        requires
            from <= to <= self.chars.len(),
        ensures
            r@ == self.chars@.subrange(from as int, to as int),
    {
        let mut out: Vec<char> = Vec::new();
        let mut k = from;
        while k < to
            invariant
                from <= k <= to <= self.chars.len(),
                out@ == self.chars@.subrange(from as int, k as int),
            decreases to - k,
        {
            out.push(self.chars[k]);
            k = k + 1;
            assert(out@ =~= self.chars@.subrange(from as int, k as int));
        }
        string_of(out.as_slice())
    }

    /// Scans the identifier that starts at the current position.
    fn tokenize_iden(&mut self) -> (r: Result<TokenTree, Diagnostic>)
        requires
            old(self).wf(),
            old(self).idx < old(self).chars.len(),
        ensures
            r is Ok ==> final(self).idx == after_spacing(old(self).chars@, r->Ok_0.loc_spec().end as int),
            final(self).wf(),
            final(self).chars == old(self).chars,
            final(self).finished == old(self).finished,
            r is Ok ==> result_comments(r) == old(self).comments@,
            r is Ok ==> final(self).idx >= r->Ok_0.loc_spec().end > r->Ok_0.loc_spec().start
                == old(self).idx,
            iden_outcome(
                old(self).chars@,
                old(self).idx as int,
                r,
                final(self).idx as int,
                final(self).comments@,
            ),
    {
        let ghost s = self.chars@;
        let start = self.idx;
        self.idx = self.idx + 1;
        while self.idx < self.chars.len() && Lexer::is_iden_char(self.chars[self.idx])
            invariant
                self.chars == old(self).chars,
                self.comments == old(self).comments,
                self.finished == old(self).finished,
                self.chars@ == s,
                start < self.idx <= self.chars.len(),
                iden_end(s, start + 1) == iden_end(s, self.idx as int),
            decreases self.chars.len() - self.idx,
        {
            self.idx = self.idx + 1;
        }
        let end = self.idx;
        let value = self.text_between(start, end);
        let res = self.finish();
        match res {
            Ok((comments, spacing)) => Ok(
                TokenTree::Iden(Iden { loc: start..end, value, comments, spacing }),
            ),
            Err(d) => Err(d),
        }
    }

    /// Scans the punctuator at the current position.
    fn tokenize_punct(&mut self) -> (r: Result<TokenTree, Diagnostic>)
        requires
            old(self).wf(),
            old(self).idx < old(self).chars.len(),
        ensures
            r is Ok ==> final(self).idx == after_spacing(old(self).chars@, r->Ok_0.loc_spec().end as int),
            final(self).wf(),
            final(self).chars == old(self).chars,
            final(self).finished == old(self).finished,
            r is Ok ==> result_comments(r) == old(self).comments@,
            r is Ok ==> final(self).idx >= r->Ok_0.loc_spec().end > r->Ok_0.loc_spec().start
                == old(self).idx,
            punct_outcome(
                old(self).chars@,
                old(self).idx as int,
                r,
                final(self).idx as int,
                final(self).comments@,
            ),
    {
        let start = self.idx;
        let value = self.chars[start];
        self.idx = start + 1;
        let res = self.finish();
        match res {
            Ok((comments, spacing)) => Ok(
                TokenTree::Punct(Punct { loc: start..start + 1, value, comments, spacing }),
            ),
            Err(d) => Err(d),
        }
    }

    /// Scans the string literal that starts at the current position, at its
    /// opening quote.
    fn tokenize_string(&mut self) -> (r: Result<TokenTree, Diagnostic>)
        requires
            old(self).wf(),
            old(self).idx < old(self).chars.len(),
        ensures
            r is Ok ==> final(self).idx == after_spacing(old(self).chars@, r->Ok_0.loc_spec().end as int),
            final(self).wf(),
            final(self).chars == old(self).chars,
            final(self).finished == old(self).finished,
            r is Ok ==> result_comments(r) == old(self).comments@,
            r is Ok ==> final(self).idx >= r->Ok_0.loc_spec().end > r->Ok_0.loc_spec().start
                == old(self).idx,
            string_outcome(
                old(self).chars@,
                old(self).idx as int,
                r,
                final(self).idx as int,
                final(self).comments@,
            ),
    {
        let ghost s = self.chars@;
        let start = self.idx;
        let q = self.chars[start];
        let n = self.chars.len();
        let mut j = start + 1;
        loop
            invariant
                self.chars == old(self).chars,
                self.idx == old(self).idx,
                self.comments == old(self).comments,
                self.finished == old(self).finished,
                self.wf(),
                s == old(self).chars@,
                start == old(self).idx,
                q == s[start as int],
                self.chars@ == s,
                n == s.len(),
                start < j <= n + 1,
                j <= n ==> string_close(s, start + 1, q) == string_close(s, j as int, q),
                j > n ==> string_close(s, start + 1, q) == n,
            ensures
                self.chars == old(self).chars,
                self.idx == old(self).idx,
                self.comments == old(self).comments,
                self.finished == old(self).finished,
                self.wf(),
                s == old(self).chars@,
                start < j < n,
                string_close(s, start + 1, q) == j,
            decreases n + 1 - j,
        {
            if j >= n {
                return Err(
                    Diagnostic::primary(
                        ErrorCode::UnterminatedString,
                        "string never closes",
                        start,
                        n,
                        "string never closes",
                    ),
                );
            }
            let c = self.chars[j];
            if c == q {
                break;
            } else if c == '\\' {
                if j + 1 >= n {
                    return Err(
                        Diagnostic::primary(
                            ErrorCode::UnterminatedString,
                            "string never closes",
                            start,
                            n,
                            "string never closes",
                        ),
                    );
                }
                j = j + 2;
            } else {
                j = j + 1;
            }
        }
        let close = j;
        assert(string_close(s, start + 1, q) == close);
        let raw = self.text_between(start, close + 1);
        match unescape_text(raw.as_str()) {
            Ok(value) => {
                self.idx = close + 1;
                let res = self.finish();
                match res {
                    Ok((comments, spacing)) => Ok(
                        TokenTree::Str(Str { loc: start..close + 1, value, comments, spacing }),
                    ),
                    Err(d) => Err(d),
                }
            },
            Err(EscapeFault::InvalidEscape { index }) => Err(
                Diagnostic::primary(
                    ErrorCode::InvalidEscape,
                    "invalid string escape",
                    start + index,
                    start + index,
                    "invalid string escape here",
                ),
            ),
            Err(EscapeFault::InvalidUnicode { index }) => Err(
                Diagnostic::primary(
                    ErrorCode::InvalidUnicodeEscape,
                    "invalid unicode escape in string",
                    start + index,
                    start + index,
                    "invalid unicode escape here",
                ),
            ),
        }
    }

    /// Scans the group whose opener stands just before the current position,
    /// up to the `close` that matches it.
    #[verifier::rlimit(100)]
    fn tokenize_group(&mut self, close: char) -> (r: Result<TokenTree, Diagnostic>)
        requires
            old(self).wf(),
            1 <= old(self).idx <= old(self).chars.len(),
            opener(old(self).chars@[old(self).idx - 1]),
            close == closer_of(old(self).chars@[old(self).idx - 1]),
        ensures
            r is Ok <==> token_end(old(self).chars@, old(self).idx - 1) is Some,
            r is Ok ==> token_end(old(self).chars@, old(self).idx - 1) == Some(
                r->Ok_0.loc_spec().end as int,
            ),
            r is Ok ==> final(self).idx == after_spacing(old(self).chars@, r->Ok_0.loc_spec().end as int),
            final(self).wf(),
            final(self).chars == old(self).chars,
            final(self).finished == old(self).finished,
            r is Ok ==> result_comments(r) == old(self).comments@,
            r is Ok ==> final(self).idx >= r->Ok_0.loc_spec().end > r->Ok_0.loc_spec().start
                == old(self).idx - 1,
            group_outcome(
                old(self).chars@,
                old(self).idx - 1,
                r,
                final(self).idx as int,
                final(self).comments@,
            ),
        decreases old(self).chars.len() - old(self).idx, 2usize,
    {
        let ghost s = self.chars@;
        let start = self.idx - 1;
        let comments = self.get_comments();
        let mut tokens: Vec<TokenTree> = Vec::new();
        loop
            invariant_except_break
                group_end(s, start + 1, close) == group_end(s, self.idx as int, close),
                group_eof(s, start + 1, close) == group_eof(s, self.idx as int, close),
                self.idx == scan_pos(s, start + 1, tokens@),
            invariant
                self.chars == old(self).chars,
                self.finished == old(self).finished,
                self.wf(),
                s == old(self).chars@,
                start + 1 == old(self).idx,
                start + 1 <= self.idx,
                close == closer_of(s[start as int]),
                opener(s[start as int]),
                comments@ == old(self).comments@,
                items_from(s, start + 1, close, tokens@),
            ensures
                group_end(s, start + 1, close) == Some(self.idx as int),
                !group_eof(s, start + 1, close),
                self.chars == old(self).chars,
                self.finished == old(self).finished,
                self.wf(),
                start + 2 <= self.idx,
                s[self.idx - 1] == close,
                self.idx == trivia_end(s, scan_pos(s, start + 1, tokens@)) + 1,
                comments@ == old(self).comments@,
            decreases self.chars.len() - self.idx,
        {
            let ghost at = self.idx as int;
            proof {
                lemma_group_end_unfold(s, at, close);
            }
            let skipped = self.skip_inside();
            if let Err(d) = skipped {
                proof {
                    lemma_token_end_group(s, start as int);
                }
                return Err(d);
            }
            let before = self.idx;
            if self.idx >= self.chars.len() {
                let n = self.chars.len();
                return Err(
                    Diagnostic::primary_secondary(
                        ErrorCode::UnterminatedGroup,
                        "group never ends",
                        n,
                        n,
                        "expected the group to close here",
                        start,
                        start,
                        "group starts here",
                    ),
                );
            }
            if self.chars[self.idx] == close {
                self.idx = self.idx + 1;
                break;
            }
            let res = self.tokenize_child();
            match res {
                Some(Ok(t)) => {
                    proof {
                        lemma_items_push(s, start + 1, close, tokens@, t);
                    }
                    tokens.push(t);
                },
                Some(Err(e)) => {
                    proof {
                        lemma_token_end_group(s, start as int);
                    }
                    return Err(e);
                },
                None => {},
            }
        }
        let end = self.idx;
        proof {
            lemma_token_end_group(s, start as int);
        }
        let res = self.spacing();
        match res {
            Ok(spacing) => Ok(TokenTree::Group(Group { loc: start..end, tokens, comments, spacing })),
            Err(d) => Err(d),
        }
    }

    /// Skips the trivia inside a group, up to the next token or the closer.
    fn skip_inside(&mut self) -> (r: Result<(), Diagnostic>)
        requires
            old(self).wf(),
        ensures
            r is Ok ==> final(self).idx == trivia_end(old(self).chars@, old(self).idx as int),
            r is Ok ==> !block_unterminated(old(self).chars@, final(self).idx as int),
            r is Ok ==> trivia_end(old(self).chars@, final(self).idx as int) == final(self).idx,
            r is Err ==> block_unterminated(
                old(self).chars@,
                trivia_end(old(self).chars@, old(self).idx as int),
            ),
            final(self).wf(),
            final(self).idx >= old(self).idx,
            final(self).chars == old(self).chars,
            final(self).finished == old(self).finished,
    {
        let r = self.skip();
        proof {
            lemma_trivia_end_stops(old(self).chars@, old(self).idx as int);
        }
        r
    }

    /// Scans the token inside a group that starts at the current position.
    fn tokenize_child(&mut self) -> (r: Option<Result<TokenTree, Diagnostic>>)
        requires
            old(self).wf(),
            old(self).idx < old(self).chars.len(),
            trivia_end(old(self).chars@, old(self).idx as int) == old(self).idx,
            !block_unterminated(old(self).chars@, old(self).idx as int),
        ensures
            final(self).wf(),
            final(self).chars == old(self).chars,
            final(self).finished == old(self).finished,
            r is Some,
            r->Some_0 is Ok <==> token_end(old(self).chars@, old(self).idx as int) is Some,
            r->Some_0 is Ok ==> {
                let loc = r->Some_0->Ok_0.loc_spec();
                &&& old(self).idx <= loc.start < loc.end <= final(self).idx
                &&& token_end(old(self).chars@, old(self).idx as int) == Some(loc.end as int)
                &&& final(self).idx == after_spacing(old(self).chars@, loc.end as int)
                &&& token_is(old(self).chars@, old(self).idx as int, r->Some_0->Ok_0)
            },
        decreases old(self).chars.len() - old(self).idx, 1usize,
    {
        self.tokenize()
    }

    /// Scans the next token, after the trivia at the current position;
    /// nothing if the source ends first.
    #[verifier::rlimit(100)]
    fn tokenize(&mut self) -> (r: Option<Result<TokenTree, Diagnostic>>)
        requires
            old(self).wf(),
        ensures
            final(self).wf(),
            final(self).chars == old(self).chars,
            final(self).finished == old(self).finished,
            r is None ==> final(self).idx == final(self).chars.len(),
            r is Some && r->Some_0 is Ok ==> old(self).idx <= r->Some_0->Ok_0.loc_spec().start
                < r->Some_0->Ok_0.loc_spec().end <= final(self).idx,
            step_outcome(
                old(self).chars@,
                old(self).idx as int,
                old(self).comments@,
                r,
                final(self).idx as int,
                final(self).comments@,
            ),
        decreases old(self).chars.len() - old(self).idx, 0usize,
    {
        let ghost s = self.chars@;
        let ghost i0 = self.idx as int;
        let skipped = self.skip();
        if let Err(d) = skipped {
            return Some(Err(d));
        }
        assert(self.comments@ =~= old(self).comments@ + self.comments@.subrange(
            old(self).comments@.len() as int,
            self.comments@.len() as int,
        ));
        let n = self.chars.len();
        if self.idx >= n {
            return None;
        }
        let j = self.idx;
        let c = self.chars[j];
        if Lexer::is_iden(c) {
            Some(self.tokenize_iden())
        } else if c == '-' && j + 1 < n && Lexer::is_digit(self.chars[j + 1]) {
            self.idx = j + 1;
            Some(self.tokenize_number(true))
        } else if Lexer::is_punct(c) || c == '}' || c == ']' || c == ')' {
            Some(self.tokenize_punct())
        } else if Lexer::is_digit(c) {
            Some(self.tokenize_number(false))
        } else if c == '"' || c == '\'' {
            Some(self.tokenize_string())
        } else if c == '{' || c == '[' || c == '(' {
            let close = if c == '{' {
                '}'
            } else if c == '[' {
                ']'
            } else {
                ')'
            };
            self.idx = j + 1;
            Some(self.tokenize_group(close))
        } else {
            Some(
                Err(
                    Diagnostic::primary(
                        ErrorCode::InvalidCharacter,
                        "invalid character",
                        j,
                        j,
                        "invalid character here",
                    ),
                ),
            )
        }
    }

    /// Yields the next token, or the error that stops the lexer, or nothing
    /// once the source is exhausted. After an error or the end, it yields
    /// nothing more.
    pub fn next(&mut self) -> (r: Option<Result<TokenTree, Diagnostic>>)
        requires
            old(self).wf(),
        ensures
            final(self).wf(),
            final(self).text() == old(self).text(),
            old(self).finished() ==> r is None && *final(self) == *old(self),
            !old(self).finished() ==> {
                &&& step_outcome(
                    old(self).text(),
                    old(self).pos(),
                    old(self).pending(),
                    r,
                    final(self).pos(),
                    final(self).pending(),
                )
                &&& final(self).finished() == (r is None || r->Some_0 is Err)
                &&& r is Some && r->Some_0 is Ok ==> old(self).pos()
                    <= r->Some_0->Ok_0.loc_spec().start < r->Some_0->Ok_0.loc_spec().end
                    <= final(self).pos()
            },
    {
        if self.finished {
            return None;
        }
        let r = self.tokenize();
        match &r {
            Some(Ok(_)) => {},
            _ => {
                self.finished = true;
            },
        }
        r
    }
}

} // verus!
