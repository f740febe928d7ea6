//! The parser on its own: determinism, spans, error aggregation, and the
//! shape of the trees it returns.

use foolang::ast::{Expr, Span};
use foolang::parse::{parser, Expected};

fn slice(src: &str, sp: Span) -> &str {
    &src[sp.start..sp.end]
}

#[test]
fn parsing_is_deterministic() {
    let src = b"let x = 1 + 2; fn double n = n * 2; double(x)";
    assert_eq!(parser(src), parser(src));
}

#[test]
fn precedence_shapes_the_tree() {
    let e = parser(b"2 + 3 * 4").unwrap();
    match e {
        Expr::Add(l, r, _) => {
            assert!(matches!(*l, Expr::Num(ref d, _) if d == "2"));
            assert!(matches!(*r, Expr::Mul(_, _, _)));
        }
        other => panic!("expected a sum at the top, got {:?}", other),
    }
}

#[test]
fn double_negation_nests() {
    let e = parser(b"--5").unwrap();
    match e {
        Expr::Neg(inner, _) => assert!(matches!(*inner, Expr::Neg(_, _))),
        other => panic!("expected a negation, got {:?}", other),
    }
}

#[test]
fn spans_slice_back_to_the_source() {
    let src = "let abc = 12 + 3; abc";
    let e = parser(src.as_bytes()).unwrap();
    match e {
        Expr::Let { name, rhs, then, span } => {
            assert_eq!(slice(src, name.1), "abc");
            assert_eq!(slice(src, span.unwrap()), src);
            match *rhs {
                Expr::Add(ref l, _, sp) => {
                    assert_eq!(slice(src, sp.unwrap()), "12 + 3");
                    match **l {
                        Expr::Num(ref d, dsp) => {
                            assert_eq!(d, "12");
                            assert_eq!(slice(src, dsp.unwrap()), "12");
                        }
                        ref other => panic!("expected a literal, got {:?}", other),
                    }
                }
                ref other => panic!("expected a sum, got {:?}", other),
            }
            match *then {
                Expr::Var(ref n, sp) => {
                    assert_eq!(n, "abc");
                    assert_eq!(slice(src, sp.unwrap()), "abc");
                }
                ref other => panic!("expected a variable, got {:?}", other),
            }
        }
        other => panic!("expected a let, got {:?}", other),
    }
}

#[test]
fn call_name_span_slices_to_the_name() {
    let src = " double (7) ";
    let e = parser(src.as_bytes()).unwrap();
    match e {
        Expr::Call((name, nsp), args, sp) => {
            assert_eq!(name, "double");
            assert_eq!(slice(src, nsp), "double");
            assert_eq!(slice(src, sp.unwrap()), "double (7)");
            assert_eq!(args.len(), 1);
        }
        other => panic!("expected a call, got {:?}", other),
    }
}

#[test]
fn two_independent_mistakes_both_reported() {
    // a missing `)` and a missing `;`, in one parse
    let errs = parser(b"let x = (1 + 2; fn f = x").unwrap_err();
    assert!(errs.len() >= 2, "expected at least two errors, got {:?}", errs);
    assert!(errs.iter().any(|e| e.expected.contains(&Expected::CloseParen)));
    assert!(errs.iter().any(|e| e.expected.contains(&Expected::Semicolon)));
}

#[test]
fn error_reports_found_byte_and_span() {
    let errs = parser(b"let = 5; x").unwrap_err();
    let first = &errs[0];
    assert_eq!(first.expected, vec![Expected::Ident]);
    assert_eq!(first.found, Some(b'='));
    assert_eq!(first.span, Span { start: 4, end: 5 });
}

#[test]
fn error_at_end_of_input_has_no_found_byte() {
    let errs = parser(b"1 +").unwrap_err();
    assert!(errs.iter().any(|e| e.found.is_none()));
}

#[test]
fn keywords_are_reserved() {
    assert!(parser(b"let let = 1; let").is_err());
    assert!(parser(b"fn").is_err());
}

#[test]
fn integer_literal_has_no_leading_zero() {
    // a literal is a lone `0` or starts with a nonzero digit
    assert!(parser(b"0").is_ok());
    assert!(parser(b"07").is_err());
}

#[test]
fn whitespace_is_insignificant() {
    let a = parser(b"let x=1;x").unwrap();
    let b = parser(b"  let\tx \n=  1 ;\n x  ").unwrap();
    // spans differ with the layout, but the structure cannot
    match (a, b) {
        (Expr::Let { name: n1, rhs: r1, then: t1, .. }, Expr::Let {
            name: n2,
            rhs: r2,
            then: t2,
            ..
        }) => {
            assert_eq!(n1.0, n2.0);
            assert!(matches!((*r1, *r2), (Expr::Num(d1, _), Expr::Num(d2, _)) if d1 == d2));
            assert!(matches!((*t1, *t2), (Expr::Var(v1, _), Expr::Var(v2, _)) if v1 == v2));
        }
        other => panic!("expected two lets, got {:?}", other),
    }
}

#[test]
fn set_span_fills_any_variant() {
    let mut e = Expr::Num("1".to_string(), None);
    e.set_span(Span { start: 3, end: 4 });
    assert!(matches!(e, Expr::Num(_, Some(Span { start: 3, end: 4 }))));
    let mut v = Expr::Var("x".to_string(), Some(Span { start: 0, end: 1 }));
    v.set_span(Span { start: 5, end: 6 });
    assert!(matches!(v, Expr::Var(_, Some(Span { start: 5, end: 6 }))));
}

#[test]
fn is_chain_accepts_parser_output_and_rejects_nested_declarations() {
    let good = parser(b"let x = 1; x").unwrap();
    assert!(foolang::ast::is_chain(&good));
    let bad = Expr::Neg(
        Box::new(Expr::Let {
            name: ("x".to_string(), Span { start: 0, end: 1 }),
            rhs: Box::new(Expr::Num("1".to_string(), None)),
            then: Box::new(Expr::Num("2".to_string(), None)),
            span: None,
        }),
        None,
    );
    assert!(!foolang::ast::is_chain(&bad));
}

#[test]
fn trailing_input_reports_expected_end() {
    let errs = parser(b"1 2").unwrap_err();
    assert!(errs.iter().any(|e| e.expected == vec![Expected::Eof] && e.found == Some(b'2')));
}
