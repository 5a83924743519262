use csml_core::state_context::{ExecutionState, StateContext};

#[test]
fn fresh_state_is_normal_and_loop_markers_toggle_it() {
    let mut ctx = StateContext::default();
    assert!(matches!(ctx.get_state(), ExecutionState::Normal));
    ctx.set_state(ExecutionState::Loop);
    assert!(matches!(ctx.get_state(), ExecutionState::Loop));
    ctx.set_state(ExecutionState::Normal);
    assert!(matches!(ctx.get_state(), ExecutionState::Normal));
}

#[test]
fn rip_counts_and_resets() {
    let mut ctx = StateContext::default();
    assert_eq!(ctx.get_rip(), 0);
    ctx.inc_rip();
    ctx.inc_rip();
    ctx.inc_rip();
    assert_eq!(ctx.get_rip(), 3);
    ctx.clear_rip();
    assert_eq!(ctx.get_rip(), 0);
}

#[test]
fn any_loop_depth_reads_as_loop() {
    let mut ctx = StateContext::default();
    ctx.set_state(ExecutionState::Loop);
    ctx.set_state(ExecutionState::Loop);
    assert!(matches!(ctx.get_state(), ExecutionState::Loop));
    ctx.set_state(ExecutionState::Normal);
    assert!(matches!(ctx.get_state(), ExecutionState::Loop));
    ctx.set_state(ExecutionState::Normal);
    assert!(matches!(ctx.get_state(), ExecutionState::Normal));
    // popping with an empty stack stays in the normal state
    ctx.set_state(ExecutionState::Normal);
    assert!(matches!(ctx.get_state(), ExecutionState::Normal));
}

#[test]
fn clear_state_empties_the_stack_and_keeps_rip() {
    let mut ctx = StateContext::default();
    ctx.inc_rip();
    ctx.set_state(ExecutionState::Loop);
    ctx.set_state(ExecutionState::Loop);
    ctx.clear_state();
    assert!(matches!(ctx.get_state(), ExecutionState::Normal));
    assert_eq!(ctx.get_rip(), 1);
}
