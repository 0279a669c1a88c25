//! What a child does between being forked and running the shell: it leaves
//! the session it was born into and takes the pseudo-terminal as its
//! controlling terminal.

use vstd::prelude::*;

verus! {

/// One of the two system calls of the child's preparation.
#[derive(Clone, Copy, Debug, PartialEq, Eq, Structural)]
pub enum PreExecCall {
    /// Begin a new session, which has no controlling terminal yet.
    NewSession,
    /// Make the terminal on standard input the controlling terminal.
    ControllingTerminal,
}

/// What the child does next.
#[derive(Clone, Copy, Debug, PartialEq, Eq, Structural)]
pub enum PreExec {
    /// Make this call and come back with what it returned.
    Call(PreExecCall),
    /// Run the shell.
    Done,
    /// Give up: this call failed, and a shell without its terminal is of
    /// no use.
    Failed(PreExecCall),
}

/// What follows from the last call and what it returned; `None` before the
/// first call. A call has failed where it returned a negative number.
pub open spec fn pre_exec_step(last: Option<(PreExecCall, i32)>) -> PreExec {
    match last {
        None => PreExec::Call(PreExecCall::NewSession),
        Some((call, code)) => if code < 0 {
            PreExec::Failed(call)
        } else {
            match call {
                PreExecCall::NewSession => PreExec::Call(PreExecCall::ControllingTerminal),
                PreExecCall::ControllingTerminal => PreExec::Done,
            }
        },
    }
}

/// Decides the next step of the child's preparation from the last call and
/// what it returned; `None` before the first call.
pub fn before_exec(last: Option<(PreExecCall, i32)>) -> (next: PreExec)
    ensures
        next == pre_exec_step(last),
{
    match last {
        None => PreExec::Call(PreExecCall::NewSession),
        Some((call, code)) => {
            if code < 0 {
                PreExec::Failed(call)
            } else {
                match call {
                    PreExecCall::NewSession => PreExec::Call(PreExecCall::ControllingTerminal),
                    PreExecCall::ControllingTerminal => PreExec::Done,
                }
            }
        },
    }
}

/// The preparation makes both calls in order when neither fails, and stops
/// at the first that does: after a failed first call the second is never
/// asked for.
pub proof fn lemma_pre_exec_order(first: i32, second: i32)
    ensures
        pre_exec_step(None) == PreExec::Call(PreExecCall::NewSession),
        first >= 0 ==> pre_exec_step(Some((PreExecCall::NewSession, first))) == PreExec::Call(
            PreExecCall::ControllingTerminal,
        ),
        first < 0 ==> pre_exec_step(Some((PreExecCall::NewSession, first))) == PreExec::Failed(
            PreExecCall::NewSession,
        ),
        pre_exec_step(Some((PreExecCall::ControllingTerminal, second))) == if second < 0 {
            PreExec::Failed(PreExecCall::ControllingTerminal)
        } else {
            PreExec::Done
        },
{
}

} // verus!
