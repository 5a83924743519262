use csml_core::ast::{Expr, Literal};
use csml_core::parse_literal::{parse_literalexpr, parse_single_literal, parse_number, parse_boolean, parse_null, ParseError};

#[test]
fn ok_int() {
    match parse_single_literal(b" +42") {
        Ok(..) => {}
        Err(e) => panic!("{:?}", e),
    }
}

#[test]
fn ok_float() {
    match parse_single_literal(b" -42.42") {
        Ok(..) => {}
        Err(e) => panic!("{:?}", e),
    }
}

#[test]
fn ok_bool() {
    match parse_single_literal(b" true") {
        Ok(..) => {}
        Err(e) => panic!("{:?}", e),
    }
}

#[test]
fn err_sign() {
    match parse_single_literal(b" +++++4") {
        Ok(..) => panic!("need to fail"),
        Err(..) => {}
    }
}

#[test]
fn err_float1() {
    match parse_single_literal(b" 2.2.2") {
        Ok(..) => panic!("need to fail"),
        Err(..) => {}
    }
}

#[test]
fn err_float2() {
    match parse_single_literal(b" 3,2 ") {
        Ok(ok) => panic!("need to fail {:?}", ok),
        Err(..) => {}
    }
}

#[test]
fn int_value_and_full_consumption() {
    assert_eq!(
        parse_single_literal(b" +42"),
        Ok(Expr::LitExpr(Literal::IntLiteral(42)))
    );
    assert_eq!(
        parse_single_literal(b"-7"),
        Ok(Expr::LitExpr(Literal::IntLiteral(-7)))
    );
    assert_eq!(
        parse_single_literal(b"0009"),
        Ok(Expr::LitExpr(Literal::IntLiteral(9)))
    );
}

#[test]
fn float_keeps_whole_text() {
    assert_eq!(
        parse_single_literal(b" -42.42"),
        Ok(Expr::LitExpr(Literal::FloatLiteral("-42.42".to_string())))
    );
    assert_eq!(
        parse_single_literal(b"3.14"),
        Ok(Expr::LitExpr(Literal::FloatLiteral("3.14".to_string())))
    );
}

#[test]
fn bool_and_null_keywords() {
    assert_eq!(
        parse_single_literal(b"true"),
        Ok(Expr::LitExpr(Literal::BoolLiteral(true)))
    );
    assert_eq!(
        parse_single_literal(b" false"),
        Ok(Expr::LitExpr(Literal::BoolLiteral(false)))
    );
    assert_eq!(
        parse_single_literal(b" NULL"),
        Ok(Expr::LitExpr(Literal::NullLiteral))
    );
    assert!(parse_single_literal(b" NULLX").is_err());
}

#[test]
fn comment_skipping() {
    assert_eq!(
        parse_single_literal(b"// note\n  42"),
        Ok(Expr::LitExpr(Literal::IntLiteral(42)))
    );
}

#[test]
fn integer_overflow_is_a_parse_failure() {
    assert_eq!(
        parse_single_literal(b"9223372036854775807"),
        Ok(Expr::LitExpr(Literal::IntLiteral(i64::MAX)))
    );
    assert_eq!(
        parse_single_literal(b"-9223372036854775808"),
        Ok(Expr::LitExpr(Literal::IntLiteral(i64::MIN)))
    );
    assert!(parse_single_literal(b"9223372036854775808").is_err());
    assert!(parse_single_literal(b"-9223372036854775809").is_err());
}

#[test]
fn parser_reports_positions() {
    // after one space of leading whitespace, nothing matches at offset 1
    assert_eq!(parse_literalexpr(b" ,", 0), Err(ParseError { position: 1 }));
    let (next, e) = parse_literalexpr(b"  12 tail", 0).unwrap();
    assert_eq!(next, 4);
    assert_eq!(e, Expr::LitExpr(Literal::IntLiteral(12)));
}

#[test]
fn alternation_order_prefers_float() {
    let (next, e) = parse_number(b"-42.42", 0).unwrap();
    assert_eq!(next, 6);
    assert_eq!(e, Expr::LitExpr(Literal::FloatLiteral("-42.42".to_string())));
    assert!(parse_boolean(b"42", 0).is_err());
    assert!(parse_null(b"42", 0).is_err());
}
