use csml_core::ast::{Expr, Ident, Literal};
use csml_core::builtins::{button, exprvec_to_vec, one_of, text, typing, url, wait};
use csml_core::errors::InterpError;
use csml_core::message::{Content, MessageType};
use csml_core::num_text::i64_to_string;

fn one_arg(l: Literal) -> Expr {
    Expr::ArrayExpr(vec![Expr::LitExpr(l)])
}

#[test]
fn typing_and_wait_pass_the_first_argument_through() {
    let args = one_arg(Literal::IntLiteral(300));
    assert_eq!(typing(&args), &Expr::LitExpr(Literal::IntLiteral(300)));
    assert_eq!(wait(&args), &Expr::LitExpr(Literal::IntLiteral(300)));
    // lenient: a non-integer argument still comes back unchanged
    let odd = one_arg(Literal::StringLiteral("soon".to_string()));
    assert_eq!(typing(&odd), &Expr::LitExpr(Literal::StringLiteral("soon".to_string())));
}

#[test]
fn text_and_url_pass_literals_through() {
    let args = one_arg(Literal::StringLiteral("hello".to_string()));
    assert_eq!(text(&args), &Expr::LitExpr(Literal::StringLiteral("hello".to_string())));
    assert_eq!(url(&args), &Expr::LitExpr(Literal::StringLiteral("hello".to_string())));
    // a non-array argument is handed back as-is
    let bare = Expr::IdentExpr(Ident("x".to_string()));
    assert_eq!(text(&bare), &bare);
}

#[test]
fn button_builds_the_message() {
    let args = Expr::ArrayExpr(vec![
        Expr::LitExpr(Literal::StringLiteral("Go".to_string())),
        Expr::ArrayExpr(vec![
            Expr::LitExpr(Literal::StringLiteral("A".to_string())),
            Expr::LitExpr(Literal::IntLiteral(1)),
        ]),
    ]);
    let MessageType::Msg(m) = button(&args);
    assert_eq!(m.my_type, "Button");
    assert_eq!(
        m.content,
        Content::Button("Go".to_string(), vec!["A".to_string(), "1".to_string()])
    );
}

#[test]
fn button_wrong_arity_degrades_to_the_fallback() {
    let args = one_arg(Literal::StringLiteral("Go".to_string()));
    let MessageType::Msg(m) = button(&args);
    assert_eq!(m.my_type, "say");
    assert_eq!(m.content, Content::Button("Button".to_string(), vec![]));
}

#[test]
fn exprvec_drops_non_literal_elements() {
    let v = vec![
        Expr::LitExpr(Literal::StringLiteral("A".to_string())),
        Expr::IdentExpr(Ident("x".to_string())),
        Expr::LitExpr(Literal::IntLiteral(-3)),
    ];
    assert_eq!(exprvec_to_vec(&v), vec!["A".to_string(), "-3".to_string()]);
}

#[test]
fn one_of_returns_an_exact_element_near_uniformly() {
    let arr = Expr::ArrayExpr(vec![
        Expr::LitExpr(Literal::IntLiteral(1)),
        Expr::LitExpr(Literal::IntLiteral(2)),
        Expr::LitExpr(Literal::IntLiteral(3)),
    ]);
    let mut counts = [0usize; 3];
    for _ in 0..3000 {
        match one_of(&arr).unwrap() {
            Expr::LitExpr(Literal::IntLiteral(n)) => {
                assert!(*n == 1 || *n == 2 || *n == 3);
                counts[(*n - 1) as usize] += 1;
            }
            other => panic!("not an element: {:?}", other),
        }
    }
    for c in counts {
        assert!(c > 700 && c < 1300, "selection far from uniform: {:?}", counts);
    }
}

#[test]
fn one_of_on_an_empty_array_is_a_selection_error() {
    let empty = Expr::ArrayExpr(vec![]);
    assert_eq!(one_of(&empty), Err(InterpError::SelectionError));
}

#[test]
fn decimal_text_of_integers() {
    assert_eq!(i64_to_string(0), "0");
    assert_eq!(i64_to_string(42), "42");
    assert_eq!(i64_to_string(-42), "-42");
    assert_eq!(i64_to_string(i64::MAX), "9223372036854775807");
    assert_eq!(i64_to_string(i64::MIN), "-9223372036854775808");
}
