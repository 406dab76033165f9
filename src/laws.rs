//! Laws of the lexer, stated over the outcome of one call.
use crate::diagnostic::Diagnostic;
use crate::classify::trivia_char;
use crate::literal::{closer_of, items_from, result_comments, scan_pos, step_outcome, token_end, token_is};
use crate::token::{Comment, Spacing, TokenTree};
use crate::trivia::{
    advances, after_spacing, breaks_line, comments_between, lemma_advances, spacing_fails, spacing_of, spacing_stop,
    stops_at_break, trivia_end, unit_end,
};
use vstd::prelude::*;

verus! {

/// The characters from `a` to exactly `b` are a run of complete trivia units:
/// whitespace, line breaks and comments.
pub open spec fn trivia_run(s: Seq<char>, a: int, b: int) -> bool
    decreases s.len() - a,
{
    if a == b {
        true
    } else if a < b && advances(s, a) {
        trivia_run(s, unit_end(s, a), b)
    } else {
        false
    }
}

/// The run of trivia units from `a` holds a line breaking character, on
/// its own or inside a comment.
pub open spec fn run_has_break(s: Seq<char>, a: int) -> bool
    decreases s.len() - a,
{
    if advances(s, a) {
        breaks_line(s, a) || run_has_break(s, unit_end(s, a))
    } else {
        false
    }
}

proof fn lemma_trivia_end_run(s: Seq<char>, a: int)
    requires
        0 <= a <= s.len(),
    ensures
        a <= trivia_end(s, a) <= s.len(),
        trivia_run(s, a, trivia_end(s, a)),
    decreases s.len() - a,
{
    if advances(s, a) {
        lemma_trivia_end_run(s, unit_end(s, a));
    }
}

proof fn lemma_spacing_run(s: Seq<char>, a: int)
    requires
        0 <= a <= s.len(),
    ensures
        a <= after_spacing(s, a) <= s.len(),
        trivia_run(s, a, after_spacing(s, a)),
    decreases s.len() - a,
{
    if advances(s, a) {
        if breaks_line(s, a) {
            assert(trivia_run(s, unit_end(s, a), unit_end(s, a)));
        } else {
            lemma_spacing_run(s, unit_end(s, a));
        }
    }
}

proof fn lemma_spacing_stop(s: Seq<char>, a: int)
    requires
        0 <= a <= s.len(),
    ensures
        a <= spacing_stop(s, a),
        trivia_end(s, a) >= a,
        stops_at_break(s, a) <==> run_has_break(s, a),
        !stops_at_break(s, a) ==> spacing_stop(s, a) == trivia_end(s, a),
        trivia_end(s, a) == a ==> spacing_stop(s, a) == a && !stops_at_break(s, a),
    decreases s.len() - a,
{
    if advances(s, a) {
        if !breaks_line(s, a) {
            lemma_spacing_stop(s, unit_end(s, a));
        }
        lemma_trivia_end_run(s, unit_end(s, a));
    }
}

/// Spacing precedence: after a token that ends at `e` (where the scan for
/// spacing meets no block comment that never ends), the spacing is a line
/// break exactly when the trivia that follows holds a line break anywhere
/// (inside a comment too), whatever whitespace or comments stand before
/// it; otherwise it is whitespace exactly when some trivia follows;
/// otherwise nothing.
pub proof fn lemma_spacing_precedence(s: Seq<char>, e: int)
    requires
        0 <= e <= s.len(),
        !spacing_fails(s, e),
    ensures
        spacing_of(s, e) == Spacing::LineBreak <==> run_has_break(s, e),
        spacing_of(s, e) == Spacing::Whitespace <==> !run_has_break(s, e) && trivia_end(s, e) > e,
        spacing_of(s, e) == Spacing::Adjacent <==> trivia_end(s, e) == e,
{
    lemma_spacing_stop(s, e);
}

/// Spacing precedence, for the tokens that the lexer yields: a token's
/// spacing is a line break exactly when the trivia after it holds a line
/// break anywhere; otherwise whitespace exactly when some trivia follows it;
/// otherwise nothing.
pub proof fn lemma_token_spacing(
    s: Seq<char>,
    i: int,
    pending: Seq<Comment>,
    r: Option<Result<TokenTree, Diagnostic>>,
    idx: int,
    after: Seq<Comment>,
)
    requires
        0 <= i <= s.len(),
        step_outcome(s, i, pending, r, idx, after),
        r is Some && r->Some_0 is Ok,
    ensures
        ({
            let t = r->Some_0->Ok_0;
            let e = t.loc_spec().end as int;
            &&& t.spacing_spec() == Spacing::LineBreak <==> run_has_break(s, e)
            &&& t.spacing_spec() == Spacing::Whitespace <==> !run_has_break(s, e) && trivia_end(s, e)
                > e
            &&& t.spacing_spec() == Spacing::Adjacent <==> trivia_end(s, e) == e
        }),
{
    let t = r->Some_0->Ok_0;
    let e = t.loc_spec().end as int;
    lemma_trivia_end_run(s, i);
    reveal_with_fuel(token_end, 1);
    lemma_spacing_precedence(s, e);
}

/// The pieces of the source that a run of calls of the lexer covers: for
/// the `k`-th call on, the trivia before its token, the token's own
/// characters and the trivia after it.
pub open spec fn pieces(s: Seq<char>, ps: Seq<int>, ts: Seq<TokenTree>, k: int) -> Seq<char>
    decreases ts.len() - k,
{
    if 0 <= k < ts.len() {
        let a = ts[k].loc_spec().start as int;
        let b = ts[k].loc_spec().end as int;
        s.subrange(ps[k], a) + s.subrange(a, b) + s.subrange(b, ps[k + 1]) + pieces(s, ps, ts, k + 1)
    } else {
        Seq::empty()
    }
}

/// Span coverage over a whole run: if calls of the lexer from index 0 stand
/// at `ps[0]`, `ps[1]`, ... and yield the tokens `ts` in turn, the last call
/// yielding nothing, then the pieces they cover, each trivia then a token
/// then trivia, give the whole source back, and all that stands between
/// tokens is trivia.
pub proof fn lemma_run_coverage(
    s: Seq<char>,
    ps: Seq<int>,
    pend: Seq<Seq<Comment>>,
    ts: Seq<TokenTree>,
)
    requires
        ps.len() == ts.len() + 1,
        pend.len() == ts.len() + 1,
        ps[0] == 0,
        forall|k: int|
            0 <= k < ts.len() ==> step_outcome(
                s,
                #[trigger] ps[k],
                pend[k],
                Some(Ok(ts[k])),
                ps[k + 1],
                pend[k + 1],
            ),
        exists|idx: int, after: Seq<Comment>|
            step_outcome(s, ps[ts.len() as int], pend[ts.len() as int], None, idx, after),
    ensures
        pieces(s, ps, ts, 0) + s.subrange(ps[ts.len() as int], s.len() as int) == s,
        trivia_run(s, ps[ts.len() as int], s.len() as int),
        forall|k: int|
            0 <= k < ts.len() ==> {
                let a = (#[trigger] ts[k]).loc_spec().start as int;
                let b = ts[k].loc_spec().end as int;
                &&& ps[k] <= a < b <= ps[k + 1] <= s.len()
                &&& trivia_run(s, ps[k], a)
                &&& trivia_run(s, b, ps[k + 1])
            },
{
    let n = ts.len() as int;
    assert forall|k: int|
        0 <= k < ts.len() implies {
            let a = (#[trigger] ts[k]).loc_spec().start as int;
            let b = ts[k].loc_spec().end as int;
            &&& ps[k] <= a < b <= ps[k + 1] <= s.len()
            &&& trivia_run(s, ps[k], a)
            &&& trivia_run(s, b, ps[k + 1])
        } by {
        lemma_run_bounds(s, ps, pend, ts, k);
        lemma_span_coverage(s, ps[k], pend[k], Some(Ok(ts[k])), ps[k + 1], pend[k + 1]);
    }
    let (idx, after) = choose|idx: int, after: Seq<Comment>|
        step_outcome(s, ps[n], pend[n], None, idx, after);
    lemma_run_bounds(s, ps, pend, ts, n);
    lemma_span_coverage(s, ps[n], pend[n], None, idx, after);
    lemma_pieces(s, ps, ts, 0);
    assert(s.subrange(0, s.len() as int) =~= s);
}

proof fn lemma_run_bounds(s: Seq<char>, ps: Seq<int>, pend: Seq<Seq<Comment>>, ts: Seq<TokenTree>, k: int)
    requires
        ps.len() == ts.len() + 1,
        pend.len() == ts.len() + 1,
        ps[0] == 0,
        0 <= k <= ts.len(),
        forall|m: int|
            0 <= m < ts.len() ==> step_outcome(
                s,
                #[trigger] ps[m],
                pend[m],
                Some(Ok(ts[m])),
                ps[m + 1],
                pend[m + 1],
            ),
    ensures
        0 <= ps[k] <= s.len(),
    decreases k,
{
    if k > 0 {
        lemma_run_bounds(s, ps, pend, ts, k - 1);
        lemma_span_coverage(s, ps[k - 1], pend[k - 1], Some(Ok(ts[k - 1])), ps[k], pend[k]);
    }
}

proof fn lemma_pieces(s: Seq<char>, ps: Seq<int>, ts: Seq<TokenTree>, k: int)
    requires
        ps.len() == ts.len() + 1,
        0 <= k <= ts.len(),
        0 <= ps[k],
        ps[ts.len() as int] <= s.len(),
        forall|m: int|
            0 <= m < ts.len() ==> ps[m] <= (#[trigger] ts[m]).loc_spec().start <= ts[m].loc_spec().end
                <= ps[m + 1] <= s.len(),
    ensures
        pieces(s, ps, ts, k) + s.subrange(ps[ts.len() as int], s.len() as int) == s.subrange(
            ps[k],
            s.len() as int,
        ),
    decreases ts.len() - k,
{
    let tail = s.subrange(ps[ts.len() as int], s.len() as int);
    if k < ts.len() {
        let a = ts[k].loc_spec().start as int;
        let b = ts[k].loc_spec().end as int;
        lemma_pieces(s, ps, ts, k + 1);
        assert(s.subrange(ps[k], s.len() as int) =~= s.subrange(ps[k], a) + s.subrange(a, b)
            + s.subrange(b, ps[k + 1]) + s.subrange(ps[k + 1], s.len() as int));
        assert(pieces(s, ps, ts, k) + tail =~= s.subrange(ps[k], a) + s.subrange(a, b)
            + s.subrange(b, ps[k + 1]) + (pieces(s, ps, ts, k + 1) + tail));
    } else {
        assert(pieces(s, ps, ts, k) + tail =~= tail);
    }
}

/// Span coverage: one call of the lexer from `i` that yields a token covers
/// the source from `i` to where it leaves the lexer: trivia, then the
/// token's own characters, then trivia, which together give that part of
/// the source back. A call that yields nothing leaves only trivia up to the
/// end. Calls chained from index 0 thus split the whole source, in order,
/// into trivia and tokens.
pub proof fn lemma_span_coverage(
    s: Seq<char>,
    i: int,
    pending: Seq<Comment>,
    r: Option<Result<TokenTree, Diagnostic>>,
    idx: int,
    after: Seq<Comment>,
)
    requires
        0 <= i <= s.len(),
        step_outcome(s, i, pending, r, idx, after),
        r is Some ==> r->Some_0 is Ok,
    ensures
        r is None ==> idx == s.len() && trivia_run(s, i, idx),
        r is Some ==> {
            let a = r->Some_0->Ok_0.loc_spec().start as int;
            let b = r->Some_0->Ok_0.loc_spec().end as int;
            &&& i <= a < b <= idx <= s.len()
            &&& trivia_run(s, i, a)
            &&& trivia_run(s, b, idx)
            &&& s.subrange(i, idx) == s.subrange(i, a) + s.subrange(a, b) + s.subrange(b, idx)
        },
{
    lemma_trivia_end_run(s, i);
    if r is Some {
        let t = r->Some_0->Ok_0;
        let a = t.loc_spec().start as int;
        let b = t.loc_spec().end as int;
        lemma_spacing_run(s, b);
        assert(s.subrange(i, idx) =~= s.subrange(i, a) + s.subrange(a, b) + s.subrange(b, idx));
    }
}

/// Two lists of comments alike: the same locations, texts and kinds.
pub open spec fn same_comments(a: Seq<Comment>, b: Seq<Comment>) -> bool {
    &&& a.len() == b.len()
    &&& forall|k: int|
        0 <= k < a.len() ==> (#[trigger] a[k]).loc == b[k].loc && a[k].value@ == b[k].value@
            && a[k].kind == b[k].kind
}

/// What lexing determines of two tokens alike: location, kind, value and
/// spacing; of a group also its tokens, one for one at the same locations,
/// each the token that the source determines there.
pub open spec fn same_token(s: Seq<char>, a: TokenTree, b: TokenTree) -> bool {
    &&& a.loc_spec() == b.loc_spec()
    &&& a.spacing_spec() == b.spacing_spec()
    &&& match (a, b) {
        (TokenTree::Iden(x), TokenTree::Iden(y)) => x.value@ == y.value@,
        (TokenTree::Punct(x), TokenTree::Punct(y)) => x.value == y.value,
        (TokenTree::Int(x), TokenTree::Int(y)) => x.kind == y.kind && x.value == y.value,
        (TokenTree::Float(x), TokenTree::Float(y)) => x.value@ == y.value@,
        (TokenTree::Str(x), TokenTree::Str(y)) => x.value@ == y.value@,
        (TokenTree::Group(x), TokenTree::Group(y)) => {
            &&& x.tokens@.len() == y.tokens@.len()
            &&& forall|k: int|
                0 <= k < x.tokens@.len() ==> {
                    let p = (#[trigger] x.tokens@[k]).loc_spec().start as int;
                    &&& x.tokens@[k].loc_spec() == y.tokens@[k].loc_spec()
                    &&& token_is(s, p, x.tokens@[k])
                    &&& token_is(s, p, y.tokens@[k])
                }
        },
        _ => false,
    }
}

proof fn lemma_between_unique(s: Seq<char>, i: int, j: int, a: Seq<Comment>, b: Seq<Comment>)
    requires
        comments_between(s, i, j, a),
        comments_between(s, i, j, b),
    ensures
        same_comments(a, b),
    decreases s.len() - i,
{
    if i != j {
        let k = unit_end(s, i);
        if trivia_char(s[i]) {
            lemma_between_unique(s, k, j, a, b);
        } else {
            lemma_between_unique(s, k, j, a.drop_first(), b.drop_first());
            assert forall|m: int| 0 <= m < a.len() implies (#[trigger] a[m]).loc == b[m].loc
                && a[m].value@ == b[m].value@ && a[m].kind == b[m].kind by {
                if m > 0 {
                    assert(a[m] == a.drop_first()[m - 1]);
                    assert(b[m] == b.drop_first()[m - 1]);
                }
            }
        }
    }
}

proof fn lemma_items_prefix(s: Seq<char>, k0: int, close: char, ts: Seq<TokenTree>, m: int)
    requires
        items_from(s, k0, close, ts),
        0 <= m <= ts.len(),
    ensures
        items_from(s, k0, close, ts.subrange(0, m)),
    decreases ts.len() - m,
{
    if m == ts.len() {
        assert(ts.subrange(0, m) =~= ts);
    } else {
        lemma_items_prefix(s, k0, close, ts.drop_last(), m);
        assert(ts.drop_last().subrange(0, m) =~= ts.subrange(0, m));
    }
}

proof fn lemma_items_same(s: Seq<char>, k0: int, close: char, a: Seq<TokenTree>, b: Seq<TokenTree>)
    requires
        items_from(s, k0, close, a),
        items_from(s, k0, close, b),
        a.len() <= b.len(),
    ensures
        scan_pos(s, k0, a) == scan_pos(s, k0, b.subrange(0, a.len() as int)),
        forall|k: int|
            0 <= k < a.len() ==> {
                let p = (#[trigger] a[k]).loc_spec().start as int;
                &&& a[k].loc_spec() == b[k].loc_spec()
                &&& token_is(s, p, a[k])
                &&& token_is(s, p, b[k])
            },
    decreases a.len(),
{
    let n = a.len() as int;
    if n > 0 {
        let b2 = b.subrange(0, n);
        lemma_items_prefix(s, k0, close, b, n);
        lemma_items_same(s, k0, close, a.drop_last(), b2.drop_last());
        assert(b2.drop_last().subrange(0, n - 1) =~= b2.drop_last());
        let p = trivia_end(s, scan_pos(s, k0, a.drop_last()));
        assert(token_is(s, p, a.last()));
        assert(token_is(s, p, b2.last()));
        reveal_with_fuel(token_is, 1);
        assert forall|k: int| 0 <= k < a.len() implies {
            let q = (#[trigger] a[k]).loc_spec().start as int;
            &&& a[k].loc_spec() == b[k].loc_spec()
            &&& token_is(s, q, a[k])
            &&& token_is(s, q, b[k])
        } by {
            if k < n - 1 {
                assert(a[k] == a.drop_last()[k]);
                assert(b[k] == b2.drop_last()[k]);
            } else {
                assert(a[k] == a.last());
                assert(b[k] == b2.last());
            }
        }
    } else {
        assert(b.subrange(0, 0).len() == 0);
    }
}

proof fn lemma_token_is_same(s: Seq<char>, j: int, a: TokenTree, b: TokenTree)
    requires
        token_is(s, j, a),
        token_is(s, j, b),
    ensures
        same_token(s, a, b),
{
    reveal_with_fuel(token_is, 1);
    if let (TokenTree::Group(x), TokenTree::Group(y)) = (a, b) {
        let close = closer_of(s[j]);
        if x.tokens@.len() <= y.tokens@.len() {
            lemma_items_same(s, j + 1, close, x.tokens@, y.tokens@);
            if x.tokens@.len() < y.tokens@.len() {
                lemma_items_prefix(s, j + 1, close, y.tokens@, x.tokens@.len() + 1 as int);
                let c = y.tokens@.subrange(0, x.tokens@.len() + 1 as int);
                assert(c.drop_last() =~= y.tokens@.subrange(0, x.tokens@.len() as int));
            }
        } else {
            lemma_items_same(s, j + 1, close, y.tokens@, x.tokens@);
            lemma_items_prefix(s, j + 1, close, x.tokens@, y.tokens@.len() + 1 as int);
            let c = x.tokens@.subrange(0, y.tokens@.len() + 1 as int);
            assert(c.drop_last() =~= x.tokens@.subrange(0, y.tokens@.len() as int));
        }
    }
}

/// Lexing again gives the same: two calls of the lexer on the same source,
/// from the same position, with the same comments pending: if one yields a
/// token, so does the other, alike in location, kind, value, spacing and
/// (for a group) its tokens, with the same comments, and both leave the
/// lexer at the same position. By span coverage the pieces of a lexed
/// source give the source back, so lexing them again meets the same calls.
pub proof fn lemma_relex_same(
    s: Seq<char>,
    i: int,
    pending: Seq<Comment>,
    r1: Option<Result<TokenTree, Diagnostic>>,
    idx1: int,
    after1: Seq<Comment>,
    r2: Option<Result<TokenTree, Diagnostic>>,
    idx2: int,
    after2: Seq<Comment>,
)
    requires
        0 <= i <= s.len(),
        step_outcome(s, i, pending, r1, idx1, after1),
        step_outcome(s, i, pending, r2, idx2, after2),
        r1 is Some && r1->Some_0 is Ok,
    ensures
        r2 is Some && r2->Some_0 is Ok,
        same_token(s, r1->Some_0->Ok_0, r2->Some_0->Ok_0),
        same_comments(result_comments(r1->Some_0), result_comments(r2->Some_0)),
        idx1 == idx2,
{
    let j = trivia_end(s, i);
    let t1 = r1->Some_0->Ok_0;
    let t2 = r2->Some_0->Ok_0;
    lemma_token_is_same(s, j, t1, t2);
    let c1 = result_comments(r1->Some_0);
    let c2 = result_comments(r2->Some_0);
    let n = pending.len() as int;
    lemma_between_unique(s, i, j, c1.subrange(n, c1.len() as int), c2.subrange(n, c2.len() as int));
    assert forall|m: int| 0 <= m < c1.len() implies (#[trigger] c1[m]).loc == c2[m].loc
        && c1[m].value@ == c2[m].value@ && c1[m].kind == c2[m].kind by {
        if m < n {
            assert(c1[m] == c1.subrange(0, n)[m]);
            assert(c2[m] == c2.subrange(0, n)[m]);
        } else {
            assert(c1[m] == c1.subrange(n, c1.len() as int)[m - n]);
            assert(c2[m] == c2.subrange(n, c2.len() as int)[m - n]);
        }
    }
}

} // verus!
