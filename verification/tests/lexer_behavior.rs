//! End-to-end behaviour of the scanner: token classification, spans,
//! macro directives and replay, whitespace collapsing, and the error cases.

use fns_lexer::err::LexicalError;
use fns_lexer::lexer::{lex_fragment, Lexer};
use fns_lexer::pos::Location;
use fns_lexer::tok::{Keyword, Operator, Token, Whitespace};

fn collect(input: &str) -> Vec<Result<(Location, Token, Location), LexicalError>> {
    let mut lx = Lexer::new(input);
    let mut out = Vec::new();
    while let Some(item) = lx.next() {
        let failed = item.is_err();
        out.push(item);
        if failed {
            break;
        }
    }
    out
}

fn tokens(input: &str) -> Vec<Token> {
    collect(input)
        .into_iter()
        .map(|item| item.expect("expected a token, found an error").1)
        .collect()
}

#[test]
fn spans_tile_the_input() {
    let items = collect("ab cd");
    assert_eq!(items.len(), 2);
    let (s1, t1, e1) = items[0].as_ref().unwrap().clone();
    let (s2, t2, e2) = items[1].as_ref().unwrap().clone();
    assert_eq!(t1, Token::Identifier("ab".to_string()));
    assert_eq!(t2, Token::Identifier("cd".to_string()));
    assert_eq!(s1.absolute, 0);
    assert_eq!(e1.absolute, 2);
    assert_eq!(s2.absolute, 3);
    assert_eq!(e2.absolute, 5);
}

#[test]
fn line_and_column_track_line_breaks() {
    let items = collect("a\nb");
    assert_eq!(items.len(), 3);
    let (s1, _, _) = items[0].as_ref().unwrap().clone();
    assert_eq!(s1, Location { line: 0, column: 0, absolute: 0 });
    let (s3, t3, e3) = items[2].as_ref().unwrap().clone();
    assert_eq!(t3, Token::Identifier("b".to_string()));
    assert_eq!(s3, Location { line: 1, column: 0, absolute: 2 });
    assert_eq!(e3, Location { line: 1, column: 1, absolute: 3 });
}

#[test]
fn operator_maximal_munch_rejects_triple_plus() {
    let items = collect("+++");
    assert_eq!(items.len(), 1);
    match items[0] {
        Err(LexicalError::ExpectedOperator(loc, ch)) => {
            assert_eq!(loc.absolute, 0);
            assert_eq!(ch, '+');
        }
        ref other => panic!("expected an operator error, found {:?}", other),
    }
    let mut lx = Lexer::new("+++");
    assert!(matches!(lx.next(), Some(Err(_))));
    assert!(lx.next().is_none());
}

#[test]
fn compound_operators_scan_whole() {
    assert_eq!(
        tokens("a <<= b"),
        vec![
            Token::Identifier("a".to_string()),
            Token::Operator(Operator::AShl),
            Token::Identifier("b".to_string()),
        ]
    );
    assert_eq!(tokens("=>"), vec![Token::Operator(Operator::ThickArrow)]);
    assert_eq!(tokens("."), vec![Token::Operator(Operator::MemberAccess)]);
    assert_eq!(tokens("`"), vec![Token::Operator(Operator::Power)]);
}

#[test]
fn number_float() {
    assert_eq!(tokens("3.14"), vec![Token::Float("3.14".to_string())]);
    assert_eq!(tokens("-3.14"), vec![Token::Float("-3.14".to_string())]);
    assert_eq!(tokens("1.5e-3"), vec![Token::Float("1.5e-3".to_string())]);
}

#[test]
fn number_signed() {
    assert_eq!(tokens("-5"), vec![Token::Signed(-5)]);
    assert_eq!(tokens("+5"), vec![Token::Signed(5)]);
    assert_eq!(
        tokens("-9223372036854775808"),
        vec![Token::Signed(i64::MIN)]
    );
}

#[test]
fn number_unsigned() {
    assert_eq!(tokens("5"), vec![Token::Unsigned(5)]);
    assert_eq!(
        tokens("18446744073709551615"),
        vec![Token::Unsigned(u64::MAX)]
    );
}

#[test]
fn number_dangling_exponent_fails() {
    let items = collect("1e");
    assert_eq!(items.len(), 1);
    assert!(matches!(items[0], Err(LexicalError::InvalidDigit(loc)) if loc.absolute == 0));
}

#[test]
fn number_overflow_is_a_hard_failure() {
    let items = collect("18446744073709551616");
    assert_eq!(items.len(), 1);
    assert!(matches!(items[0], Err(LexicalError::InvalidDigit(_))));
}

#[test]
fn number_trailing_sign_is_left_unconsumed() {
    // The dangling sign is trimmed from the candidate and scanned again as
    // an operator of its own.
    assert_eq!(
        tokens("5+"),
        vec![Token::Unsigned(5), Token::Operator(Operator::Add)]
    );
}

#[test]
fn macro_replay_matches_standalone_lexing() {
    let items = collect("#define FIVE 5\nFIVE");
    assert_eq!(items.len(), 2);
    assert!(matches!(items[0].as_ref().unwrap().1, Token::NOP));
    let replayed = items[1].as_ref().unwrap().clone();
    let standalone = lex_fragment("5");
    assert_eq!(standalone.len(), 1);
    assert_eq!(replayed.1, standalone[0].tok);
    assert_eq!(replayed.0, standalone[0].start);
    assert_eq!(replayed.2, standalone[0].end);
}

#[test]
fn macro_replay_consumes_only_the_reference() {
    let items = collect("#define PAIR 1 2\nPAIR 9");
    let toks: Vec<Token> = items
        .into_iter()
        .map(|item| item.expect("no error expected").1)
        .collect();
    assert_eq!(
        toks,
        vec![
            Token::NOP,
            Token::Unsigned(1),
            Token::Unsigned(2),
            Token::Unsigned(9),
        ]
    );
}

#[test]
fn macro_non_recursion() {
    let items = collect("#define A B\n#define B 5\nA");
    let toks: Vec<Token> = items
        .into_iter()
        .map(|item| item.expect("no error expected").1)
        .collect();
    assert_eq!(
        toks,
        vec![
            Token::NOP,
            Token::NOP,
            Token::Identifier("B".to_string()),
        ]
    );
}

#[test]
fn macro_with_empty_expansion_fails_on_reference() {
    let items = collect("#define A\nA");
    assert_eq!(items.len(), 2);
    assert!(matches!(items[0].as_ref().unwrap().1, Token::NOP));
    assert!(matches!(items[1], Err(LexicalError::ExpectedIdentOrKw(_))));
}

#[test]
fn relexing_reconstructed_source_is_equivalent() {
    let source = "foo 12 // note\nbar /* m */ baz\n";
    let first = collect(source);
    // Reassemble the source from the consumed spans, filling the skipped
    // gaps from the source text.
    let chars: Vec<char> = source.chars().collect();
    let mut rebuilt = String::new();
    let mut cursor = 0usize;
    for item in &first {
        let (start, _, end) = item.as_ref().unwrap();
        while cursor < start.absolute {
            rebuilt.push(chars[cursor]);
            cursor += 1;
        }
        for i in start.absolute..end.absolute {
            rebuilt.push(chars[i]);
        }
        cursor = end.absolute;
    }
    assert_eq!(rebuilt, source);
    let second = collect(&rebuilt);
    let first_tokens: Vec<Token> = first.into_iter().map(|i| i.unwrap().1).collect();
    let second_tokens: Vec<Token> = second.into_iter().map(|i| i.unwrap().1).collect();
    assert_eq!(first_tokens, second_tokens);
}

#[test]
fn whitespace_run_collapses_to_one_newline_token() {
    let items = collect("\n\n\r\n");
    assert_eq!(items.len(), 1);
    let (start, tok, end) = items[0].as_ref().unwrap().clone();
    assert_eq!(tok, Token::Whitespace(Whitespace::Newline));
    assert_eq!(start.absolute, 0);
    assert_eq!(end.absolute, 4);
}

#[test]
fn whitespace_between_tokens() {
    assert_eq!(
        tokens("a\n\nb"),
        vec![
            Token::Identifier("a".to_string()),
            Token::Whitespace(Whitespace::Newline),
            Token::Identifier("b".to_string()),
        ]
    );
}

#[test]
fn keyword_vs_identifier_boundary() {
    assert_eq!(tokens("if"), vec![Token::Keyword(Keyword::If)]);
    assert_eq!(tokens("iffy"), vec![Token::Identifier("iffy".to_string())]);
}

#[test]
fn all_keywords_classify() {
    let pairs = [
        ("if", Keyword::If),
        ("else", Keyword::Else),
        ("while", Keyword::While),
        ("for", Keyword::For),
        ("return", Keyword::Return),
        ("type", Keyword::Type),
        ("static", Keyword::Static),
        ("oneof", Keyword::OneOf),
        ("when", Keyword::When),
        ("in", Keyword::In),
        ("nil", Keyword::Nil),
        ("false", Keyword::False),
        ("true", Keyword::True),
    ];
    for (text, kw) in pairs {
        assert_eq!(tokens(text), vec![Token::Keyword(kw)], "keyword {}", text);
    }
}

#[test]
fn builtin_type_names_classify() {
    assert_eq!(
        tokens("number string bool"),
        vec![
            Token::TypeIdent("number".to_string()),
            Token::TypeIdent("string".to_string()),
            Token::TypeIdent("bool".to_string()),
        ]
    );
}

#[test]
fn punctuation_tokens() {
    assert_eq!(
        tokens(",;:{}()[]"),
        vec![
            Token::Comma,
            Token::Semicolon,
            Token::Colon,
            Token::OpenCurly,
            Token::CloseCurly,
            Token::OpenParen,
            Token::CloseParen,
            Token::OpenSquare,
            Token::CloseSquare,
        ]
    );
}

#[test]
fn string_literals() {
    assert_eq!(tokens("\"hi\""), vec![Token::String("hi".to_string())]);
    assert_eq!(tokens("\"\""), vec![Token::String(String::new())]);
    assert_eq!(tokens("'c'"), vec![Token::String("c".to_string())]);
    // Escapes are kept verbatim; only the outer quotes are stripped.
    assert_eq!(
        tokens("\"a\\\"b\""),
        vec![Token::String("a\\\"b".to_string())]
    );
}

#[test]
fn unterminated_string_fails() {
    let items = collect("\"abc");
    assert_eq!(items.len(), 1);
    assert!(matches!(items[0], Err(LexicalError::InvalidString(loc)) if loc.absolute == 0));
}

#[test]
fn double_quote_inside_single_quoted_literal_fails() {
    let items = collect("'a\"b'");
    assert_eq!(items.len(), 1);
    assert!(matches!(items[0], Err(LexicalError::InvalidString(_))));
}

#[test]
fn single_line_comment() {
    assert_eq!(
        tokens("// x\ny"),
        vec![
            Token::SingleLineComment("// x".to_string()),
            Token::Identifier("y".to_string()),
        ]
    );
}

#[test]
fn single_line_comment_at_end_of_input_is_benign() {
    let items = collect("a // tail");
    assert_eq!(items.len(), 1);
    assert_eq!(items[0].as_ref().unwrap().1, Token::Identifier("a".to_string()));
}

#[test]
fn multi_line_comment() {
    assert_eq!(
        tokens("/* x */y"),
        vec![
            Token::MultiLineComment("/* x */".to_string()),
            Token::Identifier("y".to_string()),
        ]
    );
    // The opening star may also serve as the closer's star.
    assert_eq!(tokens("/*/"), vec![Token::MultiLineComment("/*/".to_string())]);
}

#[test]
fn unterminated_multi_line_comment_fails() {
    let items = collect("/* abc");
    assert_eq!(items.len(), 1);
    assert!(matches!(items[0], Err(LexicalError::UnterminatedComment(loc)) if loc.absolute == 0));
}

#[test]
fn spaces_and_tabs_are_skipped_silently() {
    assert_eq!(
        tokens(" \t a \t "),
        vec![Token::Identifier("a".to_string())]
    );
}

#[test]
fn other_unicode_whitespace_is_skipped_too() {
    assert_eq!(
        tokens("a\u{a0}\u{2003}b"),
        vec![
            Token::Identifier("a".to_string()),
            Token::Identifier("b".to_string()),
        ]
    );
}

#[test]
fn empty_input_yields_nothing() {
    let mut lx = Lexer::new("");
    assert!(lx.next().is_none());
}

#[test]
fn lex_fragment_collects_tokens() {
    let toks = lex_fragment("5 x");
    assert_eq!(toks.len(), 2);
    assert_eq!(toks[0].tok, Token::Unsigned(5));
    assert_eq!(toks[1].tok, Token::Identifier("x".to_string()));
}

#[test]
fn sign_starts_a_number_only_before_a_digit() {
    assert_eq!(
        tokens("a -5"),
        vec![Token::Identifier("a".to_string()), Token::Signed(-5)]
    );
    assert_eq!(
        tokens("a - b"),
        vec![
            Token::Identifier("a".to_string()),
            Token::Operator(Operator::Sub),
            Token::Identifier("b".to_string()),
        ]
    );
}

#[test]
fn directive_marker_spans_the_consumed_text() {
    let items = collect("#define FIVE 5\n5");
    let (start, tok, end) = items[0].as_ref().unwrap().clone();
    assert_eq!(tok, Token::NOP);
    assert_eq!(start.absolute, 0);
    // The marker covers the directive line, its terminating line feed
    // included.
    assert_eq!(end.absolute, 15);
}

#[test]
fn directive_name_is_any_lowercase_run() {
    let items = collect("#def N 7\nN");
    let toks: Vec<Token> = items
        .into_iter()
        .map(|item| item.expect("no error expected").1)
        .collect();
    assert_eq!(toks, vec![Token::NOP, Token::Unsigned(7)]);
}

#[test]
fn directive_splits_at_any_whitespace() {
    // A no-break space separates the macro name from its replacement text
    // just as an ordinary space does.
    let items = collect("#define A\u{a0}5\nA");
    let toks: Vec<Token> = items
        .into_iter()
        .map(|item| item.expect("no error expected").1)
        .collect();
    assert_eq!(toks, vec![Token::NOP, Token::Unsigned(5)]);
    // So does a vertical tab, and surrounding exotic whitespace is trimmed.
    let items = collect("#define\u{2003}B\u{b}7\u{2003}\nB");
    let toks: Vec<Token> = items
        .into_iter()
        .map(|item| item.expect("no error expected").1)
        .collect();
    assert_eq!(toks, vec![Token::NOP, Token::Unsigned(7)]);
}

#[test]
fn macro_redefinition_overwrites() {
    let items = collect("#define A 1\n#define A 2\nA");
    let toks: Vec<Token> = items
        .into_iter()
        .map(|item| item.expect("no error expected").1)
        .collect();
    assert_eq!(toks, vec![Token::NOP, Token::NOP, Token::Unsigned(2)]);
}
