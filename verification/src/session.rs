//! The session state machine: Initialized, ShuttingDown, and the implicit
//! terminal state that a present exit code signals.

use vstd::prelude::*;
use crate::json::{json_text, null_text, null_value};
use crate::protocol::{spec_code, Error, ErrorCodes, ResponseError};

verus! {

/// The two explicit session states.
#[derive(Debug, PartialEq, Eq, Structural, Clone, Copy)]
pub enum State {
    Initialized,
    ShuttingDown,
}

/// Process-wide session state, owned by the dispatch loop and mutated only
/// by the shutdown and exit handlers. A present `exit_code` is the sole
/// loop-termination signal.
pub struct ServerContext {
    pub state: State,
    /// Set when an `exit` notification is received.
    pub exit_code: Option<i32>,
}

impl ServerContext {
    pub fn new() -> (s: ServerContext)
        ensures
            s.state == State::Initialized,
            s.exit_code is None,
    {
        ServerContext { state: State::Initialized, exit_code: None }
    }
}

/// An `initialize` request after the handshake has completed: always the
/// server-not-initialized error, never a success.
pub fn initialize_request() -> (r: Result<serde_json::Value, ResponseError>)
    ensures
        r matches Err(e) && e.code == spec_code(ErrorCodes::ServerNotInitialized) && e.message@
            == "Unexpected initialize message"@ && e.data is None,
{
    let error_message = "Unexpected initialize message".to_owned();
    Err(ResponseError::new(ErrorCodes::ServerNotInitialized, error_message))
}

/// A `shutdown` request: moves to ShuttingDown whatever the prior state,
/// and always succeeds with the null result.
pub fn shutdown_request(ctx: &mut ServerContext) -> (r: Result<serde_json::Value, ResponseError>)
    ensures
        final(ctx).state == State::ShuttingDown,
        final(ctx).exit_code == old(ctx).exit_code,
        r matches Ok(v) && json_text(v) == null_text(),
{
    ctx.state = State::ShuttingDown;
    Ok(null_value())
}

/// An `exit` notification: exit code 0 after a shutdown, the ungraceful
/// code 1 otherwise; the explicit state itself does not change.
pub fn exit_notification(ctx: &mut ServerContext) -> (r: Result<(), Error>)
    ensures
        r is Ok,
        final(ctx).state == old(ctx).state,
        final(ctx).exit_code == Some(
            if old(ctx).state == State::ShuttingDown {
                0i32
            } else {
                1i32
            },
        ),
{
    if ctx.state == State::ShuttingDown {
        ctx.exit_code = Some(0);
    } else {
        ctx.exit_code = Some(1);
    }
    Ok(())
}

} // verus!
