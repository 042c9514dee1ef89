use vstd::prelude::*;

verus! {

/// A typed unit of cross-context communication, produced by the decoder
/// from validated input (or by internal logic) and consumed exactly once
/// by the control loop.
#[derive(Debug, PartialEq, Eq)]
pub enum Message {
    /// Instruct the content surface to load this target.
    Navigate(String),
    /// Instruct the content surface to render an error state.
    ConnectionError(String),
    /// Fire a user-visible notification.
    Notify { title: String, body: String },
}

} // verus!
