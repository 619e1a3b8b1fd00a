//! The accept loop's decisions: classify each accept outcome and pick the
//! action that keeps the listener alive. A successful accept spawns an
//! independent connection; resource exhaustion backs off briefly so that
//! descriptors can be freed; any other accept failure backs off for an even
//! shorter while. No outcome ever stops the loop.

use vstd::prelude::*;

verus! {

/// How long accepting pauses after the open-file-descriptor limit was hit.
pub const EMFILE_BACKOFF_MS: u64 = 10;

/// How long accepting pauses after any other transient accept failure.
pub const ACCEPT_ERROR_BACKOFF_MS: u64 = 5;

/// One outcome of an attempt to accept a connection, the failure carrying
/// the operating system's error code when there is one.
#[derive(Debug, Clone, Copy, PartialEq, Eq)]
pub enum AcceptEvent {
    Accepted,
    Failed(Option<i32>),
}

/// What the accept loop does next; there is no action that stops the loop.
#[derive(Debug, Clone, Copy, PartialEq, Eq)]
pub enum AcceptAction {
    /// Hand the accepted socket to an independently scheduled connection.
    SpawnConnection,
    /// Pause accepting for the given number of milliseconds, then retry.
    RetryAfterMillis(u64),
}

/// Whether an accept-time error code means the process-wide or system-wide
/// open-file-descriptor limit was reached.
pub fn is_emfile(code: Option<i32>) -> (r: bool)
    ensures
        r == (code == Some(24i32) || code == Some(23i32)),
{
    match code {
        Some(c) => c == 24 || c == 23,
        None => false,
    }
}

/// The accept loop's one decision: spawn on success, back off 10 ms on
/// resource exhaustion, back off 5 ms on any other failure — never stop.
pub fn accept_action(event: &AcceptEvent) -> (action: AcceptAction)
    ensures
        match *event {
            AcceptEvent::Accepted => action == AcceptAction::SpawnConnection,
            AcceptEvent::Failed(code) => action == AcceptAction::RetryAfterMillis(
                if code == Some(24i32) || code == Some(23i32) {
                    EMFILE_BACKOFF_MS as u64
                } else {
                    ACCEPT_ERROR_BACKOFF_MS as u64
                },
            ),
        },
{
    match event {
        AcceptEvent::Accepted => AcceptAction::SpawnConnection,
        AcceptEvent::Failed(code) => {
            if is_emfile(*code) {
                AcceptAction::RetryAfterMillis(EMFILE_BACKOFF_MS)
            } else {
                AcceptAction::RetryAfterMillis(ACCEPT_ERROR_BACKOFF_MS)
            }
        },
    }
}

} // verus!
