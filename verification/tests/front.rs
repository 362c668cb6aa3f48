use lib::error::Span;
use lib::lexer::{tokenize, Token};
use lib::parser::{parse_sexprs, SExpr};

fn sp(start: usize, end: usize, line: usize, column: usize) -> Span {
    Span::new(start, end, line, column)
}

#[test]
fn tokenize_reads_every_kind_of_token() {
    let toks = tokenize("(a 12 \"s t\")", "f.hal").unwrap();
    assert_eq!(
        toks,
        vec![
            Token::LParen(sp(0, 1, 1, 1)),
            Token::Ident("a".to_string(), sp(1, 2, 1, 2)),
            Token::Number("12".to_string(), sp(3, 5, 1, 4)),
            Token::String("s t".to_string(), sp(6, 11, 1, 7)),
            Token::RParen(sp(11, 12, 1, 12)),
            Token::Eof(sp(12, 12, 1, 13)),
        ]
    );
}

#[test]
fn tokenize_skips_comments_and_counts_lines() {
    let toks = tokenize("; c\n(x)", "f.hal").unwrap();
    assert_eq!(
        toks,
        vec![
            Token::LParen(sp(4, 5, 2, 1)),
            Token::Ident("x".to_string(), sp(5, 6, 2, 2)),
            Token::RParen(sp(6, 7, 2, 3)),
            Token::Eof(sp(7, 7, 2, 4)),
        ]
    );
}

#[test]
fn tokenize_empty_source_gives_only_eof() {
    assert_eq!(tokenize("", "f.hal").unwrap(), vec![Token::Eof(sp(0, 0, 1, 1))]);
    assert_eq!(tokenize("  \n ; only a comment", "f.hal").unwrap(), vec![Token::Eof(sp(20, 20, 2, 18))]);
}

#[test]
fn tokenize_counts_bytes_of_wide_characters() {
    let toks = tokenize("\"é\" x", "f.hal").unwrap();
    assert_eq!(toks[0], Token::String("é".to_string(), sp(0, 4, 1, 1)));
    assert_eq!(toks[1], Token::Ident("x".to_string(), sp(5, 6, 1, 5)));
}

#[test]
fn tokenize_reports_unclosed_string() {
    let d = tokenize("(\"abc", "f.hal").unwrap_err();
    assert_eq!(d.message, "unclosed string literal: `abc...`");
    assert_eq!(d.file, "f.hal");
    assert_eq!(d.span, sp(1, 5, 1, 2));
}

#[test]
fn tokenize_reports_unexpected_character() {
    let d = tokenize("(é)", "f.hal").unwrap_err();
    assert_eq!(d.message, "unexpected character `é`");
    assert_eq!(d.span, sp(1, 3, 1, 2));
}

#[test]
fn token_streams_end_with_one_eof() {
    for src in ["", "(a b)", "x ; y\n(z (w))", "\"s\" 1 2 3"] {
        let toks = tokenize(src, "f.hal").unwrap();
        assert!(matches!(toks.last(), Some(Token::Eof(_))));
        assert_eq!(toks.iter().filter(|t| matches!(t, Token::Eof(_))).count(), 1);
    }
}

#[test]
fn parse_builds_nested_lists_with_spans() {
    let toks = tokenize("(a (b c) d) e", "f.hal").unwrap();
    let sexprs = parse_sexprs(toks, "f.hal").unwrap();
    assert_eq!(
        sexprs,
        vec![
            SExpr::List(
                vec![
                    SExpr::Atom("a".to_string(), sp(1, 2, 1, 2)),
                    SExpr::List(
                        vec![
                            SExpr::Atom("b".to_string(), sp(4, 5, 1, 5)),
                            SExpr::Atom("c".to_string(), sp(6, 7, 1, 7)),
                        ],
                        sp(3, 8, 1, 4),
                    ),
                    SExpr::Atom("d".to_string(), sp(9, 10, 1, 10)),
                ],
                sp(0, 11, 1, 1),
            ),
            SExpr::Atom("e".to_string(), sp(12, 13, 1, 13)),
        ]
    );
}

#[test]
fn parse_keeps_strings_as_atoms() {
    let sexprs = parse_sexprs(tokenize("(\"a b\")", "f.hal").unwrap(), "f.hal").unwrap();
    assert_eq!(
        sexprs,
        vec![SExpr::List(vec![SExpr::Atom("a b".to_string(), sp(1, 6, 1, 2))], sp(0, 7, 1, 1))]
    );
}

#[test]
fn parse_reports_unexpected_close() {
    let d = parse_sexprs(tokenize(")", "f.hal").unwrap(), "f.hal").unwrap_err();
    assert_eq!(d.message, "unexpected ')'");
    assert_eq!(d.span, sp(0, 1, 1, 1));
}

#[test]
fn parse_reports_unclosed_list_at_eof() {
    let d = parse_sexprs(tokenize("(a", "f.hal").unwrap(), "f.hal").unwrap_err();
    assert_eq!(d.message, "unclosed '('");
    assert_eq!(d.span, sp(2, 2, 1, 3));
}

#[test]
fn span_from_char_range_finds_line_and_column() {
    let src = "ab\ncd\n\nxyz";
    assert_eq!(Span::from_char_range(0, 1, src), sp(0, 1, 1, 1));
    assert_eq!(Span::from_char_range(4, 5, src), sp(4, 5, 2, 2));
    assert_eq!(Span::from_char_range(8, 9, src), sp(8, 9, 4, 2));
    assert_eq!(Span::from_char_range(100, 101, src), sp(100, 101, 4, 4));
    let wide = "é\na";
    assert_eq!(Span::from_char_range(1, 2, wide), sp(1, 2, 1, 2));
    assert_eq!(Span::from_char_range(2, 3, wide), sp(2, 3, 2, 1));
    assert_eq!(Span::from_char_range(3, 3, wide), sp(3, 3, 2, 2));
}

fn span_of(t: &Token) -> Span {
    match t {
        Token::LParen(s) | Token::RParen(s) | Token::Eof(s) => *s,
        Token::Ident(_, s) | Token::Number(_, s) | Token::String(_, s) => *s,
    }
}

#[test]
fn token_spans_agree_with_from_char_range() {
    let src = "(module m ; note\n  (wire a 4)\n\n\t(assign a \"x y\"))\n";
    for t in tokenize(src, "f.hal").unwrap() {
        let sp = span_of(&t);
        assert_eq!(Span::from_char_range(sp.start, sp.end, src), sp, "{:?}", t);
    }
    let d = tokenize("(a\n  \"open", "f.hal").unwrap_err();
    assert_eq!(Span::from_char_range(d.span.start, d.span.end, "(a\n  \"open"), d.span);
}

#[test]
fn token_spans_before_wide_characters_agree_with_from_char_range() {
    let src = "(wire a 4)\n(assign a b) ; \u{e9}t\u{e9}\n";
    let toks = tokenize(src, "f.hal").unwrap();
    let n = toks.len();
    for t in &toks[..n - 1] {
        let sp = span_of(t);
        assert_eq!(Span::from_char_range(sp.start, sp.end, src), sp, "{:?}", t);
    }
    let d = tokenize("(a\n  \u{e9}", "f.hal").unwrap_err();
    assert_eq!(d.span, sp(5, 7, 2, 3));
    assert_eq!(Span::from_char_range(d.span.start, d.span.end, "(a\n  \u{e9}"), sp(5, 7, 2, 3));
}
