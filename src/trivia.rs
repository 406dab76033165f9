//! What the lexer skips between tokens: whitespace, line breaks and comments.
//!
//! Positions are character indices into the source `s`.
use crate::classify::{line_break_char, trivia_char};
use crate::diagnostic::{label_locs, Diagnostic, ErrorCode, LabelStyle};
use crate::token::{Comment, CommentKind, Spacing, TokenTree};
use vstd::prelude::*;

verus! {

/// The index of the first character from `a` on that is not trivia.
pub open spec fn trim_start_at(v: Seq<char>, a: int) -> int
    decreases v.len() - a,
{
    if 0 <= a < v.len() && trivia_char(v[a]) {
        trim_start_at(v, a + 1)
    } else {
        a
    }
}

/// The index just after the last character before `b`, and from `a` on, that
/// is not trivia.
pub open spec fn trim_end_at(v: Seq<char>, a: int, b: int) -> int
    decreases b - a,
{
    if a < b && trivia_char(v[b - 1]) {
        trim_end_at(v, a, b - 1)
    } else {
        b
    }
}

/// `v` without the trivia characters at its start and end.
pub open spec fn trimmed(v: Seq<char>) -> Seq<char> {
    let a = trim_start_at(v, 0);
    v.subrange(a, trim_end_at(v, a, v.len() as int))
}

/// Where a line comment whose text starts at `j` ends: at the first `\n`
/// from `j` on, or at the end of the source.
pub open spec fn line_end(s: Seq<char>, j: int) -> int
    decreases s.len() - j,
{
    if j < 0 || j >= s.len() || s[j] == '\n' {
        j
    } else {
        line_end(s, j + 1)
    }
}

/// The index of the first `*/` from `j` on, or the length of the source if
/// there is none.
pub open spec fn block_close(s: Seq<char>, j: int) -> int
    decreases s.len() - j,
{
    if j < 0 || j + 1 >= s.len() {
        s.len() as int
    } else if s[j] == '*' && s[j + 1] == '/' {
        j
    } else {
        block_close(s, j + 1)
    }
}

/// A line comment (`//` or `///`) starts at `i`.
pub open spec fn starts_line_comment(s: Seq<char>, i: int) -> bool {
    0 <= i && i + 1 < s.len() && s[i] == '/' && s[i + 1] == '/'
}

/// A block comment (`/*`) starts at `i`.
pub open spec fn starts_block_comment(s: Seq<char>, i: int) -> bool {
    0 <= i && i + 1 < s.len() && s[i] == '/' && s[i + 1] == '*'
}

/// A block comment starts at `i` and never ends.
pub open spec fn block_unterminated(s: Seq<char>, i: int) -> bool {
    starts_block_comment(s, i) && block_close(s, i + 2) == s.len()
}

/// A unit of trivia starts at `i`: a whitespace or line breaking character,
/// or a comment (which may never end).
pub open spec fn starts_trivia(s: Seq<char>, i: int) -> bool {
    0 <= i < s.len() && (trivia_char(s[i]) || starts_line_comment(s, i) || starts_block_comment(
        s,
        i,
    ))
}

/// A complete unit of trivia starts at `i`.
pub open spec fn skippable(s: Seq<char>, i: int) -> bool {
    starts_trivia(s, i) && !block_unterminated(s, i)
}

/// A complete unit of trivia starts at `i`, and ends within the source.
pub open spec fn advances(s: Seq<char>, i: int) -> bool {
    skippable(s, i) && i < unit_end(s, i) <= s.len()
}

/// Where the unit of trivia that starts at `i` ends.
pub open spec fn unit_end(s: Seq<char>, i: int) -> int {
    if 0 <= i < s.len() && trivia_char(s[i]) {
        i + 1
    } else if starts_line_comment(s, i) {
        line_end(s, i + 2)
    } else {
        block_close(s, i + 2) + 2
    }
}

/// Whether the line comment at `i` is a doc comment (`///`).
pub open spec fn doc_marker(s: Seq<char>, i: int) -> bool {
    i + 2 < s.len() && s[i + 2] == '/'
}

proof fn lemma_line_end(s: Seq<char>, j: int)
    requires
        0 <= j <= s.len(),
    ensures
        j <= line_end(s, j) <= s.len(),
    decreases s.len() - j,
{
    if j < s.len() && s[j] != '\n' {
        lemma_line_end(s, j + 1);
    }
}

proof fn lemma_block_close(s: Seq<char>, j: int)
    requires
        0 <= j <= s.len(),
    ensures
        j <= block_close(s, j) <= s.len(),
        block_close(s, j) < s.len() ==> block_close(s, j) + 2 <= s.len(),
    decreases s.len() - j,
{
    if j + 1 < s.len() && !(s[j] == '*' && s[j + 1] == '/') {
        lemma_block_close(s, j + 1);
    }
}

/// Every complete unit of trivia ends after it starts, within the source.
pub proof fn lemma_advances(s: Seq<char>, i: int)
    requires
        skippable(s, i),
    ensures
        advances(s, i),
{
    if starts_line_comment(s, i) {
        lemma_line_end(s, i + 2);
    } else if starts_block_comment(s, i) {
        lemma_block_close(s, i + 2);
    }
}

/// `c` is the comment that starts at `i`: its location, its trimmed text and
/// its kind.
pub open spec fn comment_at(s: Seq<char>, i: int, c: Comment) -> bool {
    if starts_line_comment(s, i) {
        let b = if doc_marker(s, i) {
            i + 3
        } else {
            i + 2
        };
        let e = line_end(s, b);
        &&& c.loc.start == i
        &&& c.loc.end == e
        &&& c.value@ == trimmed(s.subrange(b, e))
        &&& c.kind == if doc_marker(s, i) {
            CommentKind::Doc
        } else {
            CommentKind::Line
        }
    } else if starts_block_comment(s, i) {
        let k = block_close(s, i + 2);
        &&& c.loc.start == i
        &&& c.loc.end == k + 2
        &&& c.value@ == trimmed(s.subrange(i + 2, k))
        &&& c.kind == CommentKind::Block
    } else {
        false
    }
}

/// `cs` are the comments, in order, of a run of complete trivia units that
/// goes from `i` to exactly `j`.
pub open spec fn comments_between(s: Seq<char>, i: int, j: int, cs: Seq<Comment>) -> bool
    decreases s.len() - i,
{
    if i == j {
        cs.len() == 0
    } else if i < j && advances(s, i) {
        if trivia_char(s[i]) {
            comments_between(s, unit_end(s, i), j, cs)
        } else {
            &&& cs.len() > 0
            &&& comment_at(s, i, cs[0])
            &&& comments_between(s, unit_end(s, i), j, cs.drop_first())
        }
    } else {
        false
    }
}

/// Where the run of complete trivia units from `i` ends.
pub open spec fn trivia_end(s: Seq<char>, i: int) -> int
    decreases s.len() - i,
{
    if advances(s, i) {
        trivia_end(s, unit_end(s, i))
    } else {
        i
    }
}

/// The run of trivia from `i` ends where no further unit of trivia starts.
pub proof fn lemma_trivia_end_stops(s: Seq<char>, i: int)
    requires
        0 <= i <= s.len(),
    ensures
        !advances(s, trivia_end(s, i)),
        trivia_end(s, trivia_end(s, i)) == trivia_end(s, i),
        i <= trivia_end(s, i) <= s.len(),
    decreases s.len() - i,
{
    if advances(s, i) {
        lemma_trivia_end_stops(s, unit_end(s, i));
    }
}

/// A line breaking character stands somewhere from `a` to `b`.
pub open spec fn has_break(s: Seq<char>, a: int, b: int) -> bool {
    exists|k: int| a <= k < b && line_break_char(#[trigger] s[k])
}

/// The unit of trivia at `i` breaks a line: it is a line breaking
/// character, or a comment that holds one.
pub open spec fn breaks_line(s: Seq<char>, i: int) -> bool {
    has_break(s, i, unit_end(s, i))
}

/// Where the scan for spacing from `i` stops: at the first unit of the run
/// of trivia from `i` that breaks a line, or where that run ends.
pub open spec fn spacing_stop(s: Seq<char>, i: int) -> int
    decreases s.len() - i,
{
    if advances(s, i) && !breaks_line(s, i) {
        spacing_stop(s, unit_end(s, i))
    } else {
        i
    }
}

/// The scan for spacing from `i` stops at a unit that breaks a line.
pub open spec fn stops_at_break(s: Seq<char>, i: int) -> bool {
    let p = spacing_stop(s, i);
    advances(s, p) && breaks_line(s, p)
}

/// The spacing after a token that ends at `i`.
pub open spec fn spacing_of(s: Seq<char>, i: int) -> Spacing {
    if stops_at_break(s, i) {
        Spacing::LineBreak
    } else if spacing_stop(s, i) > i {
        Spacing::Whitespace
    } else {
        Spacing::Adjacent
    }
}

/// Where the lexer stands after the spacing of a token that ends at `i`:
/// just after the unit that breaks a line, if the scan stops at one.
pub open spec fn after_spacing(s: Seq<char>, i: int) -> int {
    if stops_at_break(s, i) {
        unit_end(s, spacing_stop(s, i))
    } else {
        spacing_stop(s, i)
    }
}

/// The scan for spacing from `i` meets a block comment that never ends.
pub open spec fn spacing_fails(s: Seq<char>, i: int) -> bool {
    block_unterminated(s, spacing_stop(s, i))
}

/// `d` reports the block comment at `i` that never ends.
pub open spec fn unterminated_block_error(s: Seq<char>, i: int, d: Diagnostic) -> bool {
    &&& d.code == ErrorCode::UnterminatedBlockComment
    &&& label_locs(d) == seq![
        (LabelStyle::Primary, s.len() as int, s.len() as int),
        (LabelStyle::Secondary, i, i + 2),
    ]
}

/// What holds once a token that ends at `e` has been followed by its
/// spacing: the token's spacing is `sp`, the lexer stands at `idx`, and the
/// comments met on the way wait in `pending` for the next token.
pub open spec fn after_token(
    s: Seq<char>,
    e: int,
    sp: Spacing,
    idx: int,
    pending: Seq<Comment>,
) -> bool {
    &&& !spacing_fails(s, e)
    &&& sp == spacing_of(s, e)
    &&& idx == after_spacing(s, e)
    &&& comments_between(s, e, after_spacing(s, e), pending)
}

/// The unit of trivia at `j` extends a run from `i` to `j`: the run then
/// goes to the unit's end, with the unit's comment, if any, added.
pub proof fn lemma_between_extend(
    s: Seq<char>,
    i: int,
    j: int,
    cs: Seq<Comment>,
    cs2: Seq<Comment>,
    c: Comment,
)
    requires
        comments_between(s, i, j, cs),
        advances(s, j),
        trivia_char(s[j]) ==> cs2 == cs,
        !trivia_char(s[j]) ==> comment_at(s, j, c) && cs2 == cs.push(c),
    ensures
        comments_between(s, i, unit_end(s, j), cs2),
    decreases s.len() - i,
{
    if i == j {
        assert(comments_between(s, unit_end(s, j), unit_end(s, j), seq![]));
        if !trivia_char(s[j]) {
            assert(cs2.drop_first() =~= seq![]);
        } else {
            assert(cs2 =~= seq![]);
        }
    } else {
        let k = unit_end(s, i);
        if trivia_char(s[i]) {
            lemma_between_extend(s, k, j, cs, cs2, c);
        } else {
            if !trivia_char(s[j]) {
                assert(cs2.drop_first() =~= cs.drop_first().push(c));
            } else {
                assert(cs2.drop_first() == cs.drop_first());
            }
            lemma_between_extend(s, k, j, cs.drop_first(), cs2.drop_first(), c);
        }
    }
}

} // verus!

verus! {

/// What holds of the result of scanning a token that ends at `e`, once the
/// scan itself succeeded: the token takes the comments that were `pending`,
/// and its spacing is that of the source after `e`; or the scan for spacing
/// fails on a block comment that never ends.
pub open spec fn token_outcome(
    s: Seq<char>,
    e: int,
    pending: Seq<Comment>,
    r: Result<TokenTree, Diagnostic>,
    idx: int,
    after: Seq<Comment>,
) -> bool {
    match r {
        Ok(t) => t.comments_spec() == pending && after_token(s, e, t.spacing_spec(), idx, after),
        Err(d) => spacing_fails(s, e) && unterminated_block_error(s, spacing_stop(s, e), d),
    }
}

} // verus!
