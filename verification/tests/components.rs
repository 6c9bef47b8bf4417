//! The scanner's components in isolation: character classifiers, the
//! candidate classifiers, the type-name registry, identifiers, spans, and
//! the small helpers.

use fns_lexer::chars::{
    is_builtin_type, is_digit, is_float, is_hex, is_ident_continue, is_ident_start, is_keyword,
    is_kw_char, is_lexical_whitespace, is_operator_char, is_punctuation,
};
use fns_lexer::context::{ParseContext, TypeInformation};
use fns_lexer::ident::{Ident, ReservedIdent};
use fns_lexer::lexer::first_rest;
use fns_lexer::parse_error::{bad_fromstr, context_uninitialized, missing, unexpected_lock, ParseError};
use fns_lexer::pos::{Location, Spanned};
use fns_lexer::span::Span;
use fns_lexer::tok::{Keyword, Operator, Token};

#[test]
fn classifier_ident_start() {
    assert!(is_ident_start(&'_'));
    assert!(is_ident_start(&'a'));
    assert!(is_ident_start(&'Z'));
    assert!(!is_ident_start(&'1'));
    assert!(!is_ident_start(&'-'));
}

#[test]
fn classifier_ident_continue() {
    assert!(is_ident_continue(&'1'));
    assert!(is_ident_continue(&'x'));
    assert!(!is_ident_continue(&' '));
}

#[test]
fn classifier_digits() {
    assert!(is_digit(&'0') && is_digit(&'9'));
    assert!(!is_digit(&'a'));
    assert!(is_hex(&'a') && is_hex(&'F') && is_hex(&'5'));
    assert!(!is_hex(&'g'));
}

#[test]
fn classifier_operator_chars() {
    for c in "-+&.>/^|<*!%=`?".chars() {
        assert!(is_operator_char(&c), "operator char {}", c);
    }
    assert!(!is_operator_char(&'a'));
    assert!(!is_operator_char(&'#'));
}

#[test]
fn classifier_whitespace_and_punctuation() {
    assert!(is_lexical_whitespace(&'\n') && is_lexical_whitespace(&'\r'));
    assert!(!is_lexical_whitespace(&' '));
    for c in ",;:{}()[]".chars() {
        assert!(is_punctuation(&c), "punctuation {}", c);
    }
    assert!(!is_punctuation(&'.'));
}

#[test]
fn classifier_keyword_chars() {
    for c in "chnfuaewirtsylpo".chars() {
        assert!(is_kw_char(&c));
    }
    assert!(!is_kw_char(&'z'));
}

#[test]
fn classifier_keywords_and_builtins() {
    assert!(is_keyword(&"if".to_string()));
    assert!(is_keyword(&"oneof".to_string()));
    assert!(!is_keyword(&"iffy".to_string()));
    assert!(is_builtin_type(&"number".to_string()));
    assert!(is_builtin_type(&"nil".to_string()));
    assert!(!is_builtin_type(&"int".to_string()));
}

#[test]
fn classifier_float_shape() {
    assert!(is_float(&"3.14".to_string()));
    assert!(is_float(&"-3.14".to_string()));
    assert!(is_float(&"1.5e-3".to_string()));
    assert!(is_float(&"1.5E+10".to_string()));
    assert!(!is_float(&"5".to_string()));
    assert!(!is_float(&"1e".to_string()));
    assert!(!is_float(&".5".to_string()));
    assert!(!is_float(&"1.".to_string()));
    assert!(!is_float(&"1.2.3".to_string()));
}

#[test]
fn operator_table_round() {
    let table = [
        ("`", Operator::Power),
        (">>", Operator::Shr),
        ("<<", Operator::Shl),
        ("*", Operator::Star),
        ("/", Operator::Div),
        ("%", Operator::Mod),
        ("^", Operator::BXor),
        ("|", Operator::BOr),
        ("+", Operator::Add),
        ("++", Operator::Inc),
        ("-", Operator::Sub),
        ("--", Operator::Dec),
        ("<", Operator::Lt),
        (">", Operator::Gt),
        ("<=", Operator::Le),
        (">=", Operator::Ge),
        ("==", Operator::Eq),
        ("!=", Operator::Ne),
        ("&&", Operator::And),
        ("^^", Operator::Xor),
        ("||", Operator::Or),
        ("=", Operator::Assign),
        ("<<=", Operator::AShl),
        (">>=", Operator::AShr),
        ("*=", Operator::AMul),
        ("/=", Operator::ADiv),
        ("&=", Operator::ABAnd),
        ("|=", Operator::ABOr),
        ("^=", Operator::ABXor),
        ("+=", Operator::AAdd),
        ("-=", Operator::ASub),
        ("!", Operator::Not),
        ("&", Operator::Amp),
        ("->", Operator::ThinArrow),
        ("=>", Operator::ThickArrow),
        ("?", Operator::Optional),
        (".", Operator::MemberAccess),
    ];
    for (text, op) in table {
        assert_eq!(
            Operator::from_text(&text.to_string()),
            Some(op),
            "operator {}",
            text
        );
    }
    assert_eq!(Operator::from_text(&"+++".to_string()), None);
    assert_eq!(Operator::from_text(&"".to_string()), None);
}

#[test]
fn keyword_lookup() {
    assert_eq!(Keyword::from_text(&"while".to_string()), Some(Keyword::While));
    assert_eq!(Keyword::from_text(&"self".to_string()), None);
}

#[test]
fn token_expectations() {
    let t = Token::Operator(Operator::Add);
    assert_eq!(t.expect_operator(), Operator::Add);
    let k = Token::Keyword(Keyword::If);
    assert_eq!(k.expect_keyword(), Keyword::If);
}

#[test]
fn first_rest_splits() {
    let empty: Vec<Spanned> = Vec::new();
    assert!(first_rest(&empty).is_none());
    let here = Location { line: 0, column: 0, absolute: 0 };
    let there = Location { line: 0, column: 1, absolute: 1 };
    let items = vec![
        Spanned { start: here, tok: Token::Unsigned(1), end: there },
        Spanned { start: there, tok: Token::Unsigned(2), end: there },
    ];
    let (first, rest) = first_rest(&items).unwrap();
    assert_eq!(first.tok, Token::Unsigned(1));
    assert_eq!(rest.len(), 1);
    assert_eq!(rest[0].tok, Token::Unsigned(2));
}

#[test]
fn context_knows_native_types() {
    let ctx = ParseContext::init();
    let info = ctx.is_type(&"int".to_string()).expect("int is native");
    assert!(info.is_native);
    assert!(ctx.is_type(&"float".to_string()).is_some());
    assert!(ctx.is_type(&"char".to_string()).is_some());
    assert!(ctx.is_type(&"str".to_string()).is_some());
    assert!(ctx.is_type(&"point".to_string()).is_none());
}

#[test]
fn context_add_type_and_duplicates() {
    let mut ctx = ParseContext::init();
    let info = TypeInformation {
        is_native: false,
        span: Span { content: "point".to_string(), start: 3, end: 8 },
    };
    assert!(ctx.add_type("point".to_string(), info.clone()).is_ok());
    let got = ctx.is_type(&"point".to_string()).expect("point was added");
    assert!(!got.is_native);
    assert_eq!(got.span.content, "point");
    match ctx.add_type("point".to_string(), info) {
        Err(ParseError::DuplicateType { ident }) => assert_eq!(ident, "point"),
        other => panic!("expected a duplicate-type error, found {:?}", other),
    }
    match ctx.add_type("int".to_string(), TypeInformation::native()) {
        Err(ParseError::DuplicateType { ident }) => assert_eq!(ident, "int"),
        other => panic!("expected a duplicate-type error, found {:?}", other),
    }
}

#[test]
fn type_information_native() {
    let info = TypeInformation::native();
    assert!(info.is_native);
    assert_eq!(info.span, Span::default());
}

#[test]
fn span_default_is_empty() {
    let sp = Span::default();
    assert_eq!(sp.content, "");
    assert_eq!(sp.start, 0);
    assert_eq!(sp.end, 0);
}

#[test]
fn reserved_ident_checks() {
    assert!(ReservedIdent::is_reserved(&"self".to_string()));
    assert!(!ReservedIdent::is_reserved(&"selfish".to_string()));
    assert_eq!(
        ReservedIdent::try_from_name(&"self".to_string()).unwrap(),
        ReservedIdent::Slf
    );
    match ReservedIdent::try_from_name(&"other".to_string()) {
        Err(ParseError::FromStrError { reason, origin }) => {
            assert_eq!(reason, "other");
            assert_eq!(origin, "reserved-ident-tryfrom");
        }
        other => panic!("expected a conversion error, found {:?}", other),
    }
}

#[test]
fn ident_construction_and_queries() {
    let sp = Span { content: "x".to_string(), start: 0, end: 1 };
    let id = Ident::ident("x".to_string(), sp.clone()).unwrap();
    assert!(matches!(id, Ident::Identifier { .. }));
    assert!(!id.is_type());
    assert!(id.is_reserved());
    assert_eq!(id.span(), sp);
    assert_eq!(id.name(), "x");

    let slf = Ident::ident("self".to_string(), Span::default()).unwrap();
    assert!(matches!(
        slf,
        Ident::Reserved { ident: ReservedIdent::Slf, .. }
    ));
    // This query answers false exactly on the reserved form.
    assert!(!slf.is_reserved());

    let ty = Ident::Type { name: "point".to_string(), span: Span::default() };
    assert!(ty.is_type());
    let native = Ident::Native { name: "int".to_string(), span: Span::default() };
    assert!(native.is_type());
}

#[test]
fn parse_error_constructors() {
    assert!(matches!(missing("arg"), ParseError::MissingItem { slug } if slug == "arg"));
    assert!(matches!(
        context_uninitialized("add_type"),
        ParseError::ContextError { message, origin }
            if message == "Context uninitialized" && origin == "add_type"
    ));
    assert!(matches!(
        unexpected_lock("get"),
        ParseError::ContextError { origin, .. } if origin == "get"
    ));
    assert!(matches!(
        bad_fromstr("oops".to_string(), "here"),
        ParseError::FromStrError { reason, origin } if reason == "oops" && origin == "here"
    ));
}
