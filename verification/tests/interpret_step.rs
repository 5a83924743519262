use csml_core::ast::{BlockStmt, Expr, Ident, Literal, Stmt};
use csml_core::errors::InterpError;
use csml_core::interpreter::{get_step, interpret_block, Memory};
use csml_core::message::Content;
use csml_core::state_context::{ExecutionState, ExitCondition, StateContext};

fn action(name: &str, args: Vec<Expr>) -> Expr {
    Expr::Action {
        fun: Literal::StringLiteral(name.to_string()),
        act: Box::new(Expr::ArrayExpr(args)),
    }
}

#[test]
fn mem_binding_then_text_yields_one_message_and_continue() {
    let block = vec![
        Stmt::MemStmt(
            Ident("x".to_string()),
            Expr::LitExpr(Literal::IntLiteral(42)),
        ),
        Stmt::ExprStmt(action("text", vec![Expr::IdentExpr(Ident("x".to_string()))])),
    ];
    let mut mem = Memory::new();
    let mut ctx = StateContext::default();
    let r = interpret_block(&block, &mut mem, &mut ctx);
    assert!(r.exit.is_none());
    assert!(r.error.is_none());
    assert_eq!(r.messages.len(), 1);
    assert_eq!(r.messages[0].my_type, "text");
    assert_eq!(r.messages[0].content, Content::Text("42".to_string()));
    assert_eq!(ctx.get_rip(), 0);
}

#[test]
fn messages_keep_evaluation_order() {
    let block = vec![
        Stmt::ExprStmt(action(
            "text",
            vec![Expr::LitExpr(Literal::StringLiteral("one".to_string()))],
        )),
        Stmt::ExprStmt(action(
            "text",
            vec![Expr::LitExpr(Literal::StringLiteral("two".to_string()))],
        )),
    ];
    let mut mem = Memory::new();
    let mut ctx = StateContext::default();
    let r = interpret_block(&block, &mut mem, &mut ctx);
    assert_eq!(r.messages.len(), 2);
    assert_eq!(r.messages[0].content, Content::Text("one".to_string()));
    assert_eq!(r.messages[1].content, Content::Text("two".to_string()));
}

#[test]
fn empty_selection_aborts_with_error_and_clears_state() {
    let block = vec![
        Stmt::ExprStmt(action(
            "text",
            vec![Expr::LitExpr(Literal::StringLiteral("first".to_string()))],
        )),
        Stmt::ExprStmt(action("one_of", vec![])),
        Stmt::ExprStmt(action(
            "text",
            vec![Expr::LitExpr(Literal::StringLiteral("never".to_string()))],
        )),
    ];
    let mut mem = Memory::new();
    let mut ctx = StateContext::default();
    ctx.set_state(ExecutionState::Loop);
    let r = interpret_block(&block, &mut mem, &mut ctx);
    assert_eq!(r.exit, Some(ExitCondition::Error));
    assert_eq!(r.error, Some(InterpError::SelectionError));
    // messages already produced stay in the output
    assert_eq!(r.messages.len(), 1);
    assert_eq!(r.messages[0].content, Content::Text("first".to_string()));
    assert_eq!(ctx.get_rip(), 0);
    assert!(matches!(ctx.get_state(), ExecutionState::Normal));
}

#[test]
fn resumption_starts_at_the_instruction_pointer() {
    let block = vec![
        Stmt::ExprStmt(action(
            "text",
            vec![Expr::LitExpr(Literal::StringLiteral("skipped".to_string()))],
        )),
        Stmt::ExprStmt(action(
            "text",
            vec![Expr::LitExpr(Literal::StringLiteral("run".to_string()))],
        )),
    ];
    let mut mem = Memory::new();
    let mut ctx = StateContext::default();
    ctx.inc_rip();
    let r = interpret_block(&block, &mut mem, &mut ctx);
    assert_eq!(r.messages.len(), 1);
    assert_eq!(r.messages[0].content, Content::Text("run".to_string()));
    assert_eq!(ctx.get_rip(), 0);
}

#[test]
fn truthy_conditional_inlines_its_consequence() {
    let block = vec![Stmt::ExprStmt(Expr::IfExpr {
        cond: Box::new(Expr::LitExpr(Literal::BoolLiteral(true))),
        consequence: vec![action(
            "text",
            vec![Expr::LitExpr(Literal::StringLiteral("in".to_string()))],
        )],
    })];
    let mut mem = Memory::new();
    let mut ctx = StateContext::default();
    let r = interpret_block(&block, &mut mem, &mut ctx);
    assert_eq!(r.messages.len(), 1);
    assert_eq!(r.messages[0].content, Content::Text("in".to_string()));
}

#[test]
fn falsy_conditional_is_skipped() {
    let block = vec![Stmt::ExprStmt(Expr::IfExpr {
        cond: Box::new(Expr::LitExpr(Literal::IntLiteral(0))),
        consequence: vec![action(
            "text",
            vec![Expr::LitExpr(Literal::StringLiteral("in".to_string()))],
        )],
    })];
    let mut mem = Memory::new();
    let mut ctx = StateContext::default();
    let r = interpret_block(&block, &mut mem, &mut ctx);
    assert!(r.messages.is_empty());
    assert!(r.error.is_none());
}

#[test]
fn memory_bindings_shadow_and_read_back() {
    let mut mem = Memory::new();
    assert!(mem.get(&Ident("x".to_string())).is_none());
    mem.set(Ident("x".to_string()), Literal::IntLiteral(1));
    mem.set(Ident("x".to_string()), Literal::IntLiteral(2));
    mem.set(Ident("y".to_string()), Literal::StringLiteral("v".to_string()));
    assert_eq!(mem.get(&Ident("x".to_string())), Some(&Literal::IntLiteral(2)));
    assert_eq!(
        mem.get(&Ident("y".to_string())),
        Some(&Literal::StringLiteral("v".to_string()))
    );
}

#[test]
fn goto_labels_resolve_or_raise_a_flow_error() {
    let program = vec![
        BlockStmt { label: "start".to_string(), block: vec![] },
        BlockStmt { label: "end".to_string(), block: vec![] },
    ];
    assert_eq!(get_step(&program, &"end".to_string()).unwrap().label, "end");
    match get_step(&program, &"missing".to_string()) {
        Err(InterpError::FlowError { label }) => assert_eq!(label, "missing"),
        other => panic!("expected a flow error, got {:?}", other),
    }
}
