//! The lexer of the Cherry compiler.
//!
//! It turns source text into a tree of tokens: identifiers, punctuators,
//! numeric and string literals, and bracketed groups. Comments never stand
//! as tokens of their own: they are attached to the token that follows them.
//! Keywords are not told apart from identifiers at this phase.
mod classify;
mod diagnostic;
mod laws;
mod lexer;
mod literal;
mod number;
mod outside;
mod trivia;
mod token;

pub use classify::{
    bin_digit_char, decimal_digit_char, digit_value, hex_digit_char, line_break_char, punct_char,
    trivia_char, whitespace_char,
};
pub use diagnostic::{label_locs, Diagnostic, ErrorCode, Label, LabelStyle};
pub use laws::{
    lemma_relex_same, lemma_run_coverage, lemma_spacing_precedence, lemma_span_coverage,
    lemma_token_spacing, pieces, same_comments, run_has_break, same_token,
    trivia_run,
};
pub use lexer::Lexer;
pub use literal::{
    closer, closer_of, group_end, group_outcome, iden_char, iden_end, iden_outcome, iden_start,
    lemma_group_end_unfold, lemma_token_end_group, negative_number_at, number_end, opener,
    punct_outcome, group_eof, items_from, lemma_items_push, number_is, scan_pos, token_is, quote, result_comments, step_outcome, string_close, string_end,
    string_outcome, takes_comments, token_end,
};
pub use number::{
    digits_end, digits_value, exponent_scan, fits_i64, float_text, kind_digit, mantissa_end,
    number_outcome, number_scan, radix_of, signed, without_separators, NumScan,
};
pub use outside::{unescaped, xid_continue, xid_start, EscapeFault};
pub use token::{
    Comment, CommentKind, Float, Group, Iden, Int, IntKind, Loc, Punct, Skipped, Spacing, Str,
    TokenTree,
};
pub use trivia::{
    advances, after_spacing, after_token, block_close, breaks_line, has_break, block_unterminated, comment_at,
    comments_between, doc_marker, lemma_advances, lemma_between_extend, lemma_trivia_end_stops,
    line_end, skippable, spacing_fails, spacing_of, spacing_stop, starts_block_comment,
    starts_line_comment, starts_trivia, stops_at_break, token_outcome, trim_end_at, trim_start_at,
    trimmed, trivia_end, unit_end, unterminated_block_error,
};
