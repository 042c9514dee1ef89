use vstd::prelude::*;
use vstd::string::*;
use crate::channel::MessageChannel;
use crate::messages::Message;

verus! {

/// Lifecycle of the control loop: it runs until the host signals a close
/// request, and a terminated loop dispatches nothing further.
#[derive(Debug, PartialEq, Eq, Structural, Clone, Copy)]
pub enum LoopState {
    Running,
    Terminated,
}

/// The host event that drives one loop iteration.
#[derive(Debug, PartialEq, Eq, Structural, Clone, Copy)]
pub enum HostEvent {
    CloseRequested,
    Other,
}

/// The outward instruction one dispatch produces: a script for the content
/// surface, or a notification for the platform collaborator. The caller
/// performs it; its failure is logged there, never retried, never fatal.
#[derive(Debug, PartialEq, Eq)]
pub enum SurfaceCommand {
    EvalScript(String),
    ShowNotification { title: String, body: String },
}

/// The script that instructs the surface to load `url`.
pub open spec fn navigation_script_text(url: Seq<char>) -> Seq<char> {
    "window.location.href = '"@ + url + "';"@
}

/// The script that instructs the surface to render an error state.
pub open spec fn error_script_text(detail: Seq<char>) -> Seq<char> {
    "displayError('"@ + detail + "');"@
}

pub fn navigation_script(url: &str) -> (r: String)
    ensures
        r@ == navigation_script_text(url@),
{
    let mut s = ("window.location.href = '").to_owned();
    s.append(url);
    s.append("';");
    s
}

pub fn error_script(detail: &str) -> (r: String)
    ensures
        r@ == error_script_text(detail@),
{
    let mut s = ("displayError('").to_owned();
    s.append(detail);
    s.append("');");
    s
}

/// The command that handling `m` must produce.
pub open spec fn is_dispatch_of(c: SurfaceCommand, m: Message) -> bool {
    match m {
        Message::Navigate(url) => c matches SurfaceCommand::EvalScript(s) && s@
            == navigation_script_text(url@),
        Message::ConnectionError(detail) => c matches SurfaceCommand::EvalScript(s) && s@
            == error_script_text(detail@),
        Message::Notify { title, body } => c matches SurfaceCommand::ShowNotification {
            title: t,
            body: b,
        } && t@ == title@ && b@ == body@,
    }
}

/// Turns one consumed message into the instruction the control loop issues.
pub fn dispatch(m: Message) -> (r: SurfaceCommand)
    ensures
        is_dispatch_of(r, m),
{
    match m {
        Message::Navigate(url) => SurfaceCommand::EvalScript(navigation_script(url.as_str())),
        Message::ConnectionError(detail) => SurfaceCommand::EvalScript(
            error_script(detail.as_str()),
        ),
        Message::Notify { title, body } => SurfaceCommand::ShowNotification { title, body },
    }
}

/// One control-loop iteration: a close request terminates the loop; a
/// terminated loop consumes and dispatches nothing; otherwise the oldest
/// pending message, if any, is consumed and dispatched.
pub fn step(state: LoopState, event: HostEvent, chan: &mut MessageChannel) -> (r: (
    LoopState,
    Option<SurfaceCommand>,
))
    ensures
        state is Terminated ==> r.0 is Terminated && r.1 is None && final(chan)@ == old(chan)@,
        state is Running && event is CloseRequested ==> r.0 is Terminated && r.1 is None
            && final(chan)@ == old(chan)@,
        state is Running && event is Other ==> {
            &&& r.0 is Running
            &&& old(chan)@.len() == 0 ==> r.1 is None && final(chan)@ == old(chan)@
            &&& old(chan)@.len() > 0 ==> final(chan)@ == old(chan)@.drop_first() && (
            r.1 matches Some(c) && is_dispatch_of(c, old(chan)@[0]))
        },
{
    match state {
        LoopState::Terminated => (LoopState::Terminated, None),
        LoopState::Running => match event {
            HostEvent::CloseRequested => (LoopState::Terminated, None),
            HostEvent::Other => match chan.try_receive() {
                Some(m) => (LoopState::Running, Some(dispatch(m))),
                None => (LoopState::Running, None),
            },
        },
    }
}

} // verus!
