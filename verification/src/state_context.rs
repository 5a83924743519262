//! Execution-state machine consulted by the interpreter between statement
//! evaluations: a stack of loop markers plus a resumable instruction
//! pointer ("rip").
//!
//! The state is an explicit value owned by the conversation session and
//! passed into every interpreter call. An empty marker stack denotes the
//! `Normal` state; any non-empty stack denotes the `Loop` state.

use vstd::prelude::*;

verus! {

/// The control-flow verdict a statement or step evaluation yields to its
/// caller; it is only returned, never stored.
#[derive(Debug, Clone, PartialEq)]
pub enum ExitCondition {
    Goto,
    Error,
    Break,
    Hold,
}

/// The two observable execution states: inside at least one loop, or not.
#[derive(Debug, Copy, Clone)]
pub enum ExecutionState {
    Normal,
    Loop,
}

/// Per-session execution state: the loop-marker stack and the resumable
/// instruction pointer counting the statements of the current step that
/// have already been evaluated.
#[derive(Debug)]
pub struct StateContext {
    pub state: Vec<ExecutionState>,
    pub rip: usize,
}

impl Default for StateContext {
    /// A fresh context: no loop markers, instruction pointer at zero.
    fn default() -> (r: Self)
        ensures
            r.state@ == Seq::<ExecutionState>::empty(),
            r.rip == 0,
    {
        StateContext { state: Vec::new(), rip: 0 }
    }
}

impl StateContext {
    /// Resets the resumable instruction pointer to zero; the loop-marker
    /// stack is untouched.
    pub fn clear_rip(&mut self)
        ensures
            final(self).rip == 0,
            final(self).state == old(self).state,
    {
        self.rip = 0;
    }

    /// Advances the resumable instruction pointer by one.
    pub fn inc_rip(&mut self)
        requires
            old(self).rip < usize::MAX,
        ensures
            final(self).rip == old(self).rip + 1,
            final(self).state == old(self).state,
    {
        self.rip = self.rip + 1;
    }

    /// Returns the current resumable instruction pointer.
    pub fn get_rip(&self) -> (r: usize)
        ensures
            r == self.rip,
    {
        self.rip
    }

    /// Empties the loop-marker stack; the instruction pointer is untouched.
    pub fn clear_state(&mut self)
        ensures
            final(self).state@ == Seq::<ExecutionState>::empty(),
            final(self).rip == old(self).rip,
    {
        self.state.clear();
    }

    /// Pushing `Loop` enters a loop level; requesting `Normal` pops the
    /// most recently pushed marker (a pop signal, not a pushable marker),
    /// and is a no-op on an empty stack.
    pub fn set_state(&mut self, state: ExecutionState)
        ensures
            final(self).rip == old(self).rip,
            (state is Loop ==> final(self).state@ == old(self).state@.push(state)),
            (state is Normal && old(self).state@.len() > 0 ==> final(self).state@ == old(
                self,
            ).state@.drop_last()),
            (state is Normal && old(self).state@.len() == 0 ==> final(self).state@ == old(
                self,
            ).state@),
    {
        match state {
            ExecutionState::Loop => {
                self.state.push(state);
            },
            ExecutionState::Normal => {
                if self.state.len() > 0 {
                    self.state.pop();
                }
            },
        }
    }

    /// `Loop` exactly when the marker stack is non-empty, whatever its
    /// depth; `Normal` otherwise.
    pub fn get_state(&self) -> (r: ExecutionState)
        ensures
            (r is Loop <==> self.state@.len() > 0),
            (r is Normal <==> self.state@.len() == 0),
    {
        if self.state.len() == 0 {
            ExecutionState::Normal
        } else {
            ExecutionState::Loop
        }
    }
}

} // verus!
