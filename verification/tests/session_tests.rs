use codelldb::channel::Channel;
use codelldb::server::{
    auth_preamble, connect_preamble, select_mode, ListenerLoop, ServerAction, ServerEvent,
    ServerPhase, TransportMode,
};

#[test]
fn mode_connect_takes_precedence() {
    assert_eq!(select_mode(Some(4711), Some(9229)), TransportMode::Connect(4711));
}

#[test]
fn mode_listen_port() {
    assert_eq!(select_mode(None, Some(9229)), TransportMode::Listen(9229));
}

#[test]
fn mode_default_stdio() {
    assert_eq!(select_mode(None, None), TransportMode::Stdio);
}

#[test]
fn auth_preamble_exact_bytes() {
    let out = auth_preamble(&b"abc123".to_vec());
    assert_eq!(out, b"Auth-Token: abc123\r\n".to_vec());
}

#[test]
fn connect_preamble_without_token_is_empty() {
    assert_eq!(connect_preamble(&None), Vec::<u8>::new());
}

#[test]
fn connect_preamble_with_token() {
    let out = connect_preamble(&Some(b"abc123".to_vec()));
    assert_eq!(out, b"Auth-Token: abc123\r\n".to_vec());
}

#[test]
fn single_shot_serves_once_then_terminates() {
    let mut lp = ListenerLoop::new_single_shot();
    assert_eq!(lp.step(ServerEvent::ConnectionReady), ServerAction::SpawnSession);
    assert_eq!(lp.phase, ServerPhase::Serving);
    assert_eq!(lp.step(ServerEvent::SessionCompleted), ServerAction::Stop);
    assert_eq!(lp.phase, ServerPhase::Terminated);
    assert_eq!(lp.served, 1);
    assert_eq!(lp.step(ServerEvent::ConnectionReady), ServerAction::Stop);
    assert_eq!(lp.served, 1);
}

#[test]
fn listen_without_multi_session_serves_exactly_one() {
    let mut lp = ListenerLoop::new_listening(false);
    assert_eq!(lp.step(ServerEvent::ConnectionReady), ServerAction::SpawnSession);
    assert_eq!(lp.step(ServerEvent::SessionCompleted), ServerAction::Stop);
    assert_eq!(lp.phase, ServerPhase::Terminated);
    assert_eq!(lp.served, 1);
    assert_eq!(lp.step(ServerEvent::ConnectionReady), ServerAction::Stop);
    assert_eq!(lp.phase, ServerPhase::Terminated);
    assert_eq!(lp.served, 1);
}

#[test]
fn listen_with_multi_session_serves_each_connection() {
    let k = 5u64;
    let mut lp = ListenerLoop::new_listening(true);
    for _ in 0..k {
        assert_eq!(lp.phase, ServerPhase::Listening);
        assert_eq!(lp.step(ServerEvent::ConnectionReady), ServerAction::SpawnSession);
        assert_eq!(lp.phase, ServerPhase::Serving);
        assert_eq!(lp.step(ServerEvent::SessionCompleted), ServerAction::AwaitConnection);
    }
    assert_eq!(lp.served, k);
    assert_eq!(lp.phase, ServerPhase::Listening);
}

#[test]
fn accept_failure_stops_the_loop() {
    let mut lp = ListenerLoop::new_listening(true);
    assert_eq!(lp.step(ServerEvent::AcceptFailed), ServerAction::Stop);
    assert_eq!(lp.phase, ServerPhase::Terminated);
    assert_eq!(lp.served, 0);
}

#[test]
fn inbound_frames_delivered_in_wire_order() {
    let mut ch = Channel::new();
    ch.pump_push_inbound(b"first".to_vec());
    ch.pump_push_inbound(b"second".to_vec());
    ch.pump_push_inbound(b"third".to_vec());
    assert_eq!(ch.recv(), Some(b"first".to_vec()));
    assert_eq!(ch.recv(), Some(b"second".to_vec()));
    assert_eq!(ch.recv(), Some(b"third".to_vec()));
    assert_eq!(ch.recv(), None);
}

#[test]
fn outbound_frames_written_in_enqueue_order() {
    let mut ch = Channel::new();
    ch.send(b"alpha".to_vec());
    ch.send(b"beta".to_vec());
    ch.send(b"gamma".to_vec());
    assert_eq!(ch.pump_take_outbound(), Some(b"alpha".to_vec()));
    assert_eq!(ch.pump_take_outbound(), Some(b"beta".to_vec()));
    assert_eq!(ch.pump_take_outbound(), Some(b"gamma".to_vec()));
    assert_eq!(ch.pump_take_outbound(), None);
}

#[test]
fn channel_sides_are_independent() {
    let mut ch = Channel::new();
    ch.pump_push_inbound(b"in".to_vec());
    ch.send(b"out".to_vec());
    assert_eq!(ch.pump_take_outbound(), Some(b"out".to_vec()));
    assert_eq!(ch.recv(), Some(b"in".to_vec()));
    assert_eq!(ch.recv(), None);
    assert_eq!(ch.pump_take_outbound(), None);
}
