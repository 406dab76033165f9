//! The tokens that the lexer produces.
use vstd::prelude::*;

verus! {

/// A half-open range of character indices into the source.
pub type Loc = std::ops::Range<usize>;

/// The spacing between a token and the next token.
#[derive(Clone, Copy, Debug, PartialEq, Eq, Structural)]
pub enum Spacing {
    /// Either there is no token after this one, or nothing stands between
    /// this token and the next one.
    Adjacent,
    /// There is whitespace (or a comment) between this token and the next.
    Whitespace,
    /// There is a line break between this token and the next.
    LineBreak,
}

/// What comment syntax was used.
#[derive(Clone, Copy, Debug, PartialEq, Eq, Structural)]
pub enum CommentKind {
    /// The comment started with `//`.
    Line,
    /// The comment started with `///`.
    Doc,
    /// A block comment, which starts with `/*` and ends with `*/`.
    Block,
}

/// A comment.
///
/// The lexer never yields a comment on its own: comments are attached to the
/// token that follows them.
#[derive(Debug, PartialEq)]
pub struct Comment {
    /// The location of this comment, its markers included.
    pub loc: Loc,
    /// The text of this comment, without the comment markers and without
    /// surrounding whitespace.
    pub value: String,
    /// What kind of comment this is.
    pub kind: CommentKind,
}

/// Information about a piece of trivia that was skipped.
#[derive(Debug, PartialEq)]
pub enum Skipped {
    /// A comment was skipped.
    Comment(Comment),
    /// A whitespace character was skipped.
    Whitespace,
    /// A line breaking character was skipped.
    LineBreak,
    /// Nothing was skipped: the current character is not trivia.
    Nothing,
}

/// An identifier token.
#[derive(Debug, PartialEq)]
pub struct Iden {
    /// The location of this identifier.
    pub loc: Loc,
    /// The text of this identifier.
    pub value: String,
    /// The comments before this identifier.
    pub comments: Vec<Comment>,
    /// The spacing after this identifier.
    pub spacing: Spacing,
}

/// A punctuation token.
#[derive(Debug, PartialEq)]
pub struct Punct {
    /// The location of this punctuator.
    pub loc: Loc,
    /// The punctuation character.
    pub value: char,
    /// The comments before this punctuator.
    pub comments: Vec<Comment>,
    /// The spacing after this punctuator.
    pub spacing: Spacing,
}

/// Whether an integer is a decimal, hexadecimal or binary literal.
#[derive(Clone, Copy, Debug, PartialEq, Eq, Structural)]
pub enum IntKind {
    /// A decimal literal.
    Decimal,
    /// A hexadecimal literal, written after `0x`.
    Hexadecimal,
    /// A binary literal, written after `0b`.
    Binary,
}

/// An integer literal token, with its value already computed.
#[derive(Debug, PartialEq)]
pub struct Int {
    /// The location of this literal, a leading minus sign included.
    pub loc: Loc,
    /// The radix in which this literal was written.
    pub kind: IntKind,
    /// The value of this literal.
    pub value: i64,
    /// The comments before this literal.
    pub comments: Vec<Comment>,
    /// The spacing after this literal.
    pub spacing: Spacing,
}

/// A floating-point literal token.
#[derive(Debug, PartialEq)]
pub struct Float {
    /// The location of this literal, a leading minus sign included.
    pub loc: Loc,
    /// The literal as a decimal numeral, digit separators removed: an
    /// optional `-`, digits, a `.`, digits, and an optional exponent. Every
    /// such numeral parses as an `f64`.
    pub value: String,
    /// The comments before this literal.
    pub comments: Vec<Comment>,
    /// The spacing after this literal.
    pub spacing: Spacing,
}

/// A string literal token.
#[derive(Debug, PartialEq)]
pub struct Str {
    /// The location of this literal, quotes included.
    pub loc: Loc,
    /// The text of this literal, with its escapes decoded.
    pub value: String,
    /// The comments before this literal.
    pub comments: Vec<Comment>,
    /// The spacing after this literal.
    pub spacing: Spacing,
}

/// A bracketed group of tokens.
#[derive(Debug, PartialEq)]
pub struct Group {
    /// The location of this group, from its opening through its closing
    /// bracket.
    pub loc: Loc,
    /// The tokens inside the group, in order.
    pub tokens: Vec<TokenTree>,
    /// The comments before this group.
    pub comments: Vec<Comment>,
    /// The spacing after this group.
    pub spacing: Spacing,
}

/// A tree of tokens.
#[derive(Debug, PartialEq)]
pub enum TokenTree {
    /// An identifier token.
    Iden(Iden),
    /// A punctuation token.
    Punct(Punct),
    /// An integer literal token.
    Int(Int),
    /// A floating-point literal token.
    Float(Float),
    /// A string literal token.
    Str(Str),
    /// A group token.
    Group(Group),
}

impl TokenTree {
    /// The location of this token.
    pub open spec fn loc_spec(&self) -> Loc {
        match self {
            TokenTree::Iden(t) => t.loc,
            TokenTree::Punct(t) => t.loc,
            TokenTree::Int(t) => t.loc,
            TokenTree::Float(t) => t.loc,
            TokenTree::Str(t) => t.loc,
            TokenTree::Group(t) => t.loc,
        }
    }

    /// The spacing after this token.
    pub open spec fn spacing_spec(&self) -> Spacing {
        match self {
            TokenTree::Iden(t) => t.spacing,
            TokenTree::Punct(t) => t.spacing,
            TokenTree::Int(t) => t.spacing,
            TokenTree::Float(t) => t.spacing,
            TokenTree::Str(t) => t.spacing,
            TokenTree::Group(t) => t.spacing,
        }
    }

    /// The comments attached to this token.
    pub open spec fn comments_spec(&self) -> Seq<Comment> {
        match self {
            TokenTree::Iden(t) => t.comments@,
            TokenTree::Punct(t) => t.comments@,
            TokenTree::Int(t) => t.comments@,
            TokenTree::Float(t) => t.comments@,
            TokenTree::Str(t) => t.comments@,
            TokenTree::Group(t) => t.comments@,
        }
    }
}

} // verus!
