//! Which of two window events is kept when both wait to be handled.
//!
//! Between two turns of the event loop a window may report several events,
//! and only one is kept for the next turn: a request to close before a new
//! configuration, a new configuration before a request to redraw, and of two
//! events of the same kind the later one.

use vstd::prelude::*;

verus! {

/// The kind of an event that a window reports.
#[derive(Clone, Copy, PartialEq, Eq, Structural, Debug)]
pub enum WindowEvent {
    /// The contents must be drawn again.
    Refresh,
    /// The window has a new size or a new state.
    Configure,
    /// The window is asked to close.
    Close,
}

impl WindowEvent {
    /// How urgent the event is: the larger number wins.
    pub open spec fn priority(self) -> int {
        match self {
            WindowEvent::Refresh => 0,
            WindowEvent::Configure => 1,
            WindowEvent::Close => 2,
        }
    }
}

/// Whether `incoming` takes the place of the event that waits: always when
/// none waits, else when it is at least as urgent as the one that does.
pub open spec fn takes_over(incoming: WindowEvent, pending: Option<WindowEvent>) -> bool {
    match pending {
        Some(waiting) => incoming.priority() >= waiting.priority(),
        None => true,
    }
}

/// Decides whether `incoming` takes the place of the event that waits.
#[verifier::when_used_as_spec(takes_over)]
pub fn supersedes(incoming: WindowEvent, pending: Option<WindowEvent>) -> (replace: bool)
    ensures
        replace == takes_over(incoming, pending),
{
    match (incoming, pending) {
        (_, None) => true,
        (_, Some(WindowEvent::Refresh)) => true,
        (WindowEvent::Configure, Some(WindowEvent::Configure)) => true,
        (WindowEvent::Close, _) => true,
        _ => false,
    }
}

/// A request to close is never lost: only another request to close takes its
/// place. And a request to close takes the place of whatever waits.
pub proof fn lemma_close_is_kept(incoming: WindowEvent, pending: Option<WindowEvent>)
    ensures
        takes_over(incoming, Some(WindowEvent::Close)) ==> incoming == WindowEvent::Close,
        takes_over(WindowEvent::Close, pending),
{
}

} // verus!
