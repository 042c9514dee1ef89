use webshell::channel::MessageChannel;
use webshell::codec::decode;
use webshell::control::{dispatch, step, HostEvent, LoopState, SurfaceCommand};
use webshell::messages::Message;

#[test]
fn decode_notification_yields_notify() {
    let raw = "{\"notification\":{\"title\":\"T\",\"message\":\"M\"}}";
    let msg = decode(raw);
    assert_eq!(
        msg,
        Some(Message::Notify { title: "T".to_string(), body: "M".to_string() })
    );
}

#[test]
fn decode_missing_message_field_yields_nothing() {
    assert_eq!(decode("{\"notification\":{\"title\":\"T\"}}"), None);
}

#[test]
fn decode_other_shape_yields_nothing() {
    assert_eq!(decode("{\"other\":1}"), None);
}

#[test]
fn decode_non_json_yields_nothing() {
    assert_eq!(decode("not json at all"), None);
    assert_eq!(decode(""), None);
    assert_eq!(decode("\u{0}\u{1}garbage"), None);
}

#[test]
fn decode_non_string_fields_yield_nothing() {
    assert_eq!(decode("{\"notification\":{\"title\":1,\"message\":\"M\"}}"), None);
    assert_eq!(decode("{\"notification\":{\"title\":\"T\",\"message\":null}}"), None);
}

#[test]
fn channel_delivers_in_send_order() {
    let mut chan = MessageChannel::new();
    chan.send(Message::Navigate("a".to_string()));
    chan.send(Message::Navigate("b".to_string()));
    assert_eq!(chan.try_receive(), Some(Message::Navigate("a".to_string())));
    assert_eq!(chan.try_receive(), Some(Message::Navigate("b".to_string())));
    assert_eq!(chan.try_receive(), None);
}

#[test]
fn empty_channel_yields_nothing_without_blocking() {
    let mut chan = MessageChannel::new();
    assert_eq!(chan.try_receive(), None);
    assert_eq!(chan.pending(), 0);
}

#[test]
fn dispatch_navigate_builds_navigation_script() {
    let cmd = dispatch(Message::Navigate("https://example.invalid/".to_string()));
    assert_eq!(
        cmd,
        SurfaceCommand::EvalScript(
            "window.location.href = 'https://example.invalid/';".to_string()
        )
    );
}

#[test]
fn dispatch_connection_error_builds_error_script() {
    let cmd = dispatch(Message::ConnectionError("boom".to_string()));
    assert_eq!(cmd, SurfaceCommand::EvalScript("displayError('boom');".to_string()));
}

#[test]
fn dispatch_notify_forwards_title_and_body() {
    let cmd = dispatch(Message::Notify { title: "T".to_string(), body: "M".to_string() });
    assert_eq!(
        cmd,
        SurfaceCommand::ShowNotification { title: "T".to_string(), body: "M".to_string() }
    );
}

#[test]
fn close_request_terminates_without_dispatch() {
    let mut chan = MessageChannel::new();
    chan.send(Message::Navigate("x".to_string()));
    let (state, cmd) = step(LoopState::Running, HostEvent::CloseRequested, &mut chan);
    assert_eq!(state, LoopState::Terminated);
    assert_eq!(cmd, None);
    assert_eq!(chan.pending(), 1);
}

#[test]
fn terminated_loop_dispatches_nothing() {
    let mut chan = MessageChannel::new();
    chan.send(Message::Navigate("x".to_string()));
    let (state, cmd) = step(LoopState::Terminated, HostEvent::Other, &mut chan);
    assert_eq!(state, LoopState::Terminated);
    assert_eq!(cmd, None);
    assert_eq!(chan.pending(), 1);
}

#[test]
fn running_loop_dispatches_oldest_pending_message() {
    let mut chan = MessageChannel::new();
    chan.send(Message::ConnectionError("first".to_string()));
    chan.send(Message::ConnectionError("second".to_string()));
    let (state, cmd) = step(LoopState::Running, HostEvent::Other, &mut chan);
    assert_eq!(state, LoopState::Running);
    assert_eq!(cmd, Some(SurfaceCommand::EvalScript("displayError('first');".to_string())));
    assert_eq!(chan.pending(), 1);
}

#[test]
fn running_loop_with_empty_channel_dispatches_nothing() {
    let mut chan = MessageChannel::new();
    let (state, cmd) = step(LoopState::Running, HostEvent::Other, &mut chan);
    assert_eq!(state, LoopState::Running);
    assert_eq!(cmd, None);
}
