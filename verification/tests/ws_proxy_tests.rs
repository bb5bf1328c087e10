//! WebSocket proxy dispatch: recording frames as interactions and serving
//! them back.

use ouli::config::Mode;
use ouli::net::WsMessage;
use ouli::proxy::WebSocketProxy;
use ouli::OuliError;

#[test]
fn test_ws_record_and_replay_message() {
    let mut recorder = WebSocketProxy::new(Mode::Record);
    recorder
        .record_message("client_to_server", &WsMessage::Text("ping".to_string()), 1)
        .unwrap();
    let images = recorder.finalize();
    assert_eq!(images.len(), 1);
    assert_eq!(images[0].0, "default");

    let mut replayer = WebSocketProxy::new(Mode::Replay);
    replayer.load_recording(&images[0].0, &images[0].1).unwrap();
    let out = replayer
        .replay_message(&WsMessage::Text("ping".to_string()))
        .unwrap();
    match out {
        WsMessage::Text(t) => assert_eq!(t, "ping"),
        _ => panic!("text frame expected back"),
    }
}

#[test]
fn test_ws_record_and_replay_binary() {
    let mut recorder = WebSocketProxy::new(Mode::Record);
    recorder
        .record_message("client_to_server", &WsMessage::Binary(vec![7, 8, 9]), 1)
        .unwrap();
    let images = recorder.finalize();

    let mut replayer = WebSocketProxy::new(Mode::Replay);
    replayer.load_recording(&images[0].0, &images[0].1).unwrap();
    let out = replayer
        .replay_message(&WsMessage::Binary(vec![7, 8, 9]))
        .unwrap();
    match out {
        WsMessage::Binary(d) => assert_eq!(d, vec![7, 8, 9]),
        _ => panic!("binary frame expected back"),
    }
}

#[test]
fn test_ws_replay_miss() {
    let mut replayer = WebSocketProxy::new(Mode::Replay);
    let res = replayer.replay_message(&WsMessage::Binary(vec![1, 2, 3]));
    assert!(matches!(res, Err(OuliError::RecordingNotFound(_))));
}

#[test]
fn test_ws_chain_orders_replay() {
    // two identical frames recorded in sequence replay only in order
    let mut recorder = WebSocketProxy::new(Mode::Record);
    recorder
        .record_message("client_to_server", &WsMessage::Text("a".to_string()), 1)
        .unwrap();
    recorder
        .record_message("client_to_server", &WsMessage::Text("a".to_string()), 2)
        .unwrap();
    let images = recorder.finalize();

    let mut replayer = WebSocketProxy::new(Mode::Replay);
    replayer.load_recording(&images[0].0, &images[0].1).unwrap();
    assert!(replayer.replay_message(&WsMessage::Text("a".to_string())).is_ok());
    assert!(replayer.replay_message(&WsMessage::Text("a".to_string())).is_ok());
    // the chain has moved past the recorded pair
    assert!(matches!(
        replayer.replay_message(&WsMessage::Text("a".to_string())),
        Err(OuliError::RecordingNotFound(_))
    ));
}

#[test]
fn test_ws_record_message_wrong_mode() {
    // outside record mode recording a frame is a no-op
    let mut replayer = WebSocketProxy::new(Mode::Replay);
    assert!(replayer
        .record_message("client_to_server", &WsMessage::Text("x".to_string()), 1)
        .is_ok());
    assert!(replayer.finalize().is_empty());
}


#[test]
fn websocket_test_finalize_record_mode() {
    let mut proxy = WebSocketProxy::new(Mode::Record);
    let images = proxy.finalize();
    assert!(images.is_empty());
}
