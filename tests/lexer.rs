use ccherry_lexer::{
    Comment, CommentKind, Diagnostic, ErrorCode, Group, Iden, Int, IntKind, LabelStyle, Lexer,
    Punct, Spacing, Str, TokenTree,
};

fn error_of(source: &str) -> Diagnostic {
    let mut lexer = Lexer::new(source);
    loop {
        match lexer.next() {
            Some(Ok(_)) => {}
            Some(Err(d)) => return d,
            None => panic!("no error in {:?}", source),
        }
    }
}

fn tokens_of(source: &str) -> Vec<TokenTree> {
    let mut lexer = Lexer::new(source);
    let mut tokens = Vec::new();
    while let Some(result) = lexer.next() {
        tokens.push(result.expect("unexpected error"));
    }
    tokens
}

fn int_token(loc: std::ops::Range<usize>, kind: IntKind, value: i64, spacing: Spacing) -> TokenTree {
    TokenTree::Int(Int { loc, kind, value, comments: vec![], spacing })
}

#[test]
fn iden() {
    let mut lexer = Lexer::new("test identifier");

    assert_eq!(
        lexer.next(),
        Some(Ok(TokenTree::Iden(Iden {
            loc: 0..4,
            value: "test".to_string(),
            comments: vec![],
            spacing: Spacing::Whitespace,
        })))
    );

    assert_eq!(
        lexer.next(),
        Some(Ok(TokenTree::Iden(Iden {
            loc: 5..15,
            value: "identifier".to_string(),
            comments: vec![],
            spacing: Spacing::Adjacent,
        })))
    );
}

#[test]
fn only_comment() {
    let mut lexer = Lexer::new("/* test comment */");

    assert_eq!(lexer.next(), None);
}

#[test]
fn comment_before_iden() {
    let mut lexer = Lexer::new("/* test comment */ function");

    assert_eq!(
        lexer.next(),
        Some(Ok(TokenTree::Iden(Iden {
            loc: 19..27,
            value: "function".to_string(),
            comments: vec![Comment {
                loc: 0..18,
                value: "test comment".to_string(),
                kind: CommentKind::Block,
            }],
            spacing: Spacing::Adjacent,
        })))
    );
}

#[test]
fn integer() {
    let mut lexer = Lexer::new("1234 4321");

    assert_eq!(lexer.next(), Some(Ok(int_token(0..4, IntKind::Decimal, 1234, Spacing::Whitespace))));
    assert_eq!(lexer.next(), Some(Ok(int_token(5..9, IntKind::Decimal, 4321, Spacing::Adjacent))));
}

#[test]
fn float() {
    let mut lexer = Lexer::new("1234.0213 4321.432");

    match lexer.next() {
        Some(Ok(TokenTree::Float(f))) => {
            assert_eq!(f.loc, 0..9);
            assert_eq!(f.value.parse::<f64>().unwrap(), 1234.0213);
            assert!(f.comments.is_empty());
            assert_eq!(f.spacing, Spacing::Whitespace);
        }
        other => panic!("expected a float, got {:?}", other),
    }
    match lexer.next() {
        Some(Ok(TokenTree::Float(f))) => {
            assert_eq!(f.loc, 10..18);
            assert_eq!(f.value.parse::<f64>().unwrap(), 4321.432);
            assert!(f.comments.is_empty());
            assert_eq!(f.spacing, Spacing::Adjacent);
        }
        other => panic!("expected a float, got {:?}", other),
    }
}

#[test]
fn code_block_group() {
    let mut lexer = Lexer::new("{ iden }");

    assert_eq!(
        lexer.next(),
        Some(Ok(TokenTree::Group(Group {
            loc: 0..8,
            tokens: vec![TokenTree::Iden(Iden {
                loc: 2..6,
                value: "iden".to_string(),
                comments: vec![],
                spacing: Spacing::Whitespace,
            })],
            comments: vec![],
            spacing: Spacing::Adjacent,
        })))
    );
    assert_eq!(lexer.next(), None);
}

#[test]
fn hexadecimal_and_binary() {
    assert_eq!(tokens_of("0x1F"), vec![int_token(0..4, IntKind::Hexadecimal, 31, Spacing::Adjacent)]);
    assert_eq!(tokens_of("0b101"), vec![int_token(0..5, IntKind::Binary, 5, Spacing::Adjacent)]);
    assert_eq!(tokens_of("0xffFF"), vec![int_token(0..6, IntKind::Hexadecimal, 65535, Spacing::Adjacent)]);
    assert_eq!(error_of("0x").code, ErrorCode::MissingRadixDigits);
    assert_eq!(error_of("0x").code.code(), "E0008");
    assert_eq!(error_of("0bz").code, ErrorCode::MissingRadixDigits);
}

#[test]
fn radix_overflow() {
    assert_eq!(
        tokens_of("0x7fffffffffffffff"),
        vec![int_token(0..18, IntKind::Hexadecimal, i64::MAX, Spacing::Adjacent)]
    );
    assert_eq!(error_of("0x8000000000000000").code, ErrorCode::RadixIntegerTooLarge);
    assert_eq!(
        tokens_of("-0x8000000000000000"),
        vec![int_token(0..19, IntKind::Hexadecimal, i64::MIN, Spacing::Adjacent)]
    );
}

#[test]
fn negative_literal_is_one_token() {
    assert_eq!(tokens_of("-5"), vec![int_token(0..2, IntKind::Decimal, -5, Spacing::Adjacent)]);
    assert_eq!(
        tokens_of("- 5"),
        vec![
            TokenTree::Punct(Punct {
                loc: 0..1,
                value: '-',
                comments: vec![],
                spacing: Spacing::Whitespace,
            }),
            int_token(2..3, IntKind::Decimal, 5, Spacing::Adjacent),
        ]
    );
}

#[test]
fn decimal_limits() {
    assert_eq!(
        tokens_of("-9223372036854775808"),
        vec![int_token(0..20, IntKind::Decimal, i64::MIN, Spacing::Adjacent)]
    );
    assert_eq!(error_of("9223372036854775808").code, ErrorCode::IntegerTooLarge);
    assert_eq!(error_of("9223372036854775808").code.code(), "E0007");
    assert_eq!(tokens_of("1_000"), vec![int_token(0..5, IntKind::Decimal, 1000, Spacing::Adjacent)]);
    assert_eq!(tokens_of("0"), vec![int_token(0..1, IntKind::Decimal, 0, Spacing::Adjacent)]);
    assert_eq!(tokens_of("007"), vec![int_token(0..3, IntKind::Decimal, 7, Spacing::Adjacent)]);
}

#[test]
fn float_forms() {
    match &tokens_of("-1_0.5e+3")[..] {
        [TokenTree::Float(f)] => {
            assert_eq!(f.loc, 0..9);
            assert_eq!(f.value, "-10.5e+3");
            assert_eq!(f.value.parse::<f64>().unwrap(), -10500.0);
        }
        other => panic!("expected one float, got {:?}", other),
    }
    match &tokens_of("1.2.3")[..] {
        [TokenTree::Float(f), TokenTree::Punct(p), TokenTree::Int(i)] => {
            assert_eq!(f.value, "1.2");
            assert_eq!(p.value, '.');
            assert_eq!(i.value, 3);
        }
        other => panic!("unexpected tokens {:?}", other),
    }
}

#[test]
fn exponent_errors() {
    assert_eq!(error_of("1.e5").code, ErrorCode::ExponentAfterDot);
    assert_eq!(error_of("1.e5").code.code(), "E0002");
    assert_eq!(error_of("1e5").code, ErrorCode::ExponentOnInteger);
    assert_eq!(error_of("1.5e").code, ErrorCode::MissingExponent);
    assert_eq!(error_of("1.5e+").code, ErrorCode::MissingExponent);
    assert_eq!(error_of("1.5ex").code, ErrorCode::InvalidExponent);
    assert_eq!(error_of("1.5e-x").code.code(), "E0005");
}

#[test]
fn unterminated_inputs() {
    assert_eq!(error_of("\"abc").code, ErrorCode::UnterminatedString);
    assert_eq!(error_of("\"abc").code.code(), "E0010");
    assert_eq!(error_of("\"abc\\").code, ErrorCode::UnterminatedString);
    let d = error_of("/* abc");
    assert_eq!(d.code.code(), "E0001");
    assert_eq!(d.labels[0].style, LabelStyle::Primary);
    assert_eq!(d.labels[0].loc, 6..6);
    assert_eq!(d.labels[1].loc, 0..2);
    let d = error_of("{ a");
    assert_eq!(d.code.code(), "E0014");
    assert_eq!(d.labels[0].loc, 3..3);
    assert_eq!(d.labels[1].loc, 0..0);
    assert_eq!(d.labels[1].style, LabelStyle::Secondary);
}

#[test]
fn strings() {
    assert_eq!(
        tokens_of("\"a\\nb\" 'c\\d'"),
        vec![
            TokenTree::Str(Str {
                loc: 0..6,
                value: "a\nb".to_string(),
                comments: vec![],
                spacing: Spacing::Whitespace,
            }),
            TokenTree::Str(Str {
                loc: 7..12,
                value: "c\\d".to_string(),
                comments: vec![],
                spacing: Spacing::Adjacent,
            }),
        ]
    );
    let d = error_of("\"a\\qb\"");
    assert_eq!(d.code, ErrorCode::InvalidEscape);
    assert_eq!(d.labels[0].loc, 3..3);
    assert_eq!(error_of("\"\\u{zz}\"").code.code(), "E0012");
}

#[test]
fn invalid_character() {
    let d = error_of("a ` b");
    assert_eq!(d.code.code(), "E0013");
    assert_eq!(d.labels[0].loc, 2..2);
}

#[test]
fn stops_after_error() {
    let mut lexer = Lexer::new("` a");
    assert!(matches!(lexer.next(), Some(Err(_))));
    assert_eq!(lexer.next(), None);
}

#[test]
fn line_comment_kinds() {
    match &tokens_of("// plain\n/// doc \nx")[..] {
        [TokenTree::Iden(t)] => {
            assert_eq!(
                t.comments,
                vec![
                    Comment { loc: 0..8, value: "plain".to_string(), kind: CommentKind::Line },
                    Comment { loc: 9..17, value: "doc".to_string(), kind: CommentKind::Doc },
                ]
            );
        }
        other => panic!("unexpected tokens {:?}", other),
    }
}

#[test]
fn spacing_kinds() {
    let spacings: Vec<Spacing> = tokens_of("a b /* c */\n d/**/e")
        .iter()
        .map(|t| match t {
            TokenTree::Iden(i) => i.spacing,
            _ => panic!("not an identifier"),
        })
        .collect();
    assert_eq!(
        spacings,
        vec![Spacing::Whitespace, Spacing::LineBreak, Spacing::Whitespace, Spacing::Adjacent]
    );
}

#[test]
fn slash_is_a_punctuator() {
    match &tokens_of("a / b")[..] {
        [TokenTree::Iden(a), TokenTree::Punct(p), TokenTree::Iden(b)] => {
            assert_eq!(a.value, "a");
            assert_eq!(p.value, '/');
            assert_eq!(p.loc, 2..3);
            assert_eq!(b.value, "b");
        }
        other => panic!("unexpected tokens {:?}", other),
    }
}

#[test]
fn nested_and_empty_groups() {
    match &tokens_of("( [ ] { x ) } )")[..] {
        [TokenTree::Group(g)] => {
            assert_eq!(g.loc, 0..15);
            assert_eq!(g.tokens.len(), 2);
            match &g.tokens[1] {
                TokenTree::Group(inner) => {
                    assert_eq!(inner.loc, 6..13);
                    assert!(matches!(&inner.tokens[1], TokenTree::Punct(p) if p.value == ')'));
                }
                other => panic!("unexpected token {:?}", other),
            }
        }
        other => panic!("unexpected tokens {:?}", other),
    }
    assert_eq!(tokens_of("{}").len(), 1);
}

#[test]
fn group_takes_comments_before_it() {
    match &tokens_of("/* c */ { x }")[..] {
        [TokenTree::Group(g)] => {
            assert_eq!(g.comments.len(), 1);
            assert_eq!(g.comments[0].value, "c");
            match &g.tokens[0] {
                TokenTree::Iden(x) => assert!(x.comments.is_empty()),
                other => panic!("unexpected token {:?}", other),
            }
        }
        other => panic!("unexpected tokens {:?}", other),
    }
}

#[test]
fn spans_cover_the_source() {
    let source = "let x = { 1 } // end\n \"s\"";
    let tokens = tokens_of(source);
    let chars: Vec<char> = source.chars().collect();
    let mut last = 0;
    for t in &tokens {
        let loc = match t {
            TokenTree::Iden(t) => t.loc.clone(),
            TokenTree::Punct(t) => t.loc.clone(),
            TokenTree::Int(t) => t.loc.clone(),
            TokenTree::Float(t) => t.loc.clone(),
            TokenTree::Str(t) => t.loc.clone(),
            TokenTree::Group(t) => t.loc.clone(),
        };
        assert!(last <= loc.start);
        last = loc.end;
    }
    let again: String = chars.iter().collect();
    assert_eq!(tokens_of(&again), tokens);
}

#[test]
fn unicode_identifiers() {
    match &tokens_of("héllo 日本_語 ǅx")[..] {
        [TokenTree::Iden(a), TokenTree::Iden(b), TokenTree::Iden(c)] => {
            assert_eq!(a.value, "héllo");
            assert_eq!(a.loc, 0..5);
            assert_eq!(b.value, "日本_語");
            assert_eq!(b.loc, 6..10);
            assert_eq!(c.value, "ǅx");
        }
        other => panic!("unexpected tokens {:?}", other),
    }
    assert_eq!(error_of("a \u{2764}").code, ErrorCode::InvalidCharacter);
}

#[test]
fn group_edge_cases() {
    assert_eq!(
        tokens_of("{ }"),
        vec![TokenTree::Group(Group {
            loc: 0..3,
            tokens: vec![],
            comments: vec![],
            spacing: Spacing::Adjacent,
        })]
    );
    assert_eq!(
        tokens_of("( ] )"),
        vec![TokenTree::Group(Group {
            loc: 0..5,
            tokens: vec![TokenTree::Punct(Punct {
                loc: 2..3,
                value: ']',
                comments: vec![],
                spacing: Spacing::Whitespace,
            })],
            comments: vec![],
            spacing: Spacing::Adjacent,
        })]
    );
    assert_eq!(
        tokens_of("/*c*/{a}"),
        vec![TokenTree::Group(Group {
            loc: 5..8,
            tokens: vec![TokenTree::Iden(Iden {
                loc: 6..7,
                value: "a".to_string(),
                comments: vec![],
                spacing: Spacing::Adjacent,
            })],
            comments: vec![Comment { loc: 0..5, value: "c".to_string(), kind: CommentKind::Block }],
            spacing: Spacing::Adjacent,
        })]
    );
}

#[test]
fn separators_in_every_radix() {
    assert_eq!(tokens_of("0xFF_FF"), vec![int_token(0..7, IntKind::Hexadecimal, 65535, Spacing::Adjacent)]);
    assert_eq!(tokens_of("0b1_0"), vec![int_token(0..5, IntKind::Binary, 2, Spacing::Adjacent)]);
    assert_eq!(error_of("0x_1").code, ErrorCode::MissingRadixDigits);
    match &tokens_of("1.5e1_0")[..] {
        [TokenTree::Float(f)] => assert_eq!(f.value, "1.5e10"),
        other => panic!("unexpected tokens {:?}", other),
    }
}

#[test]
fn line_break_inside_block_comment() {
    match &tokens_of("a /* x\n */ b")[..] {
        [TokenTree::Iden(a), TokenTree::Iden(b)] => {
            assert_eq!(a.spacing, Spacing::LineBreak);
            assert_eq!(b.comments.len(), 1);
            assert_eq!(b.comments[0].value, "x");
        }
        other => panic!("unexpected tokens {:?}", other),
    }
}
