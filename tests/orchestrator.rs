use flubber_irc::chat::InitInfo;
use flubber_irc::json::{FrameError, JsonCodec};
use flubber_irc::orchestrator::{child_args, Server, Session};

#[test]
fn invalid_handshake_leaves_session_unregistered() {
    let mut s = Server::new();
    assert!(!s.accept_handshake("bad".to_string(), None));
    assert!(s.sessions().is_empty());
    let init = InitInfo { name: "irc".to_string(), capabilities: vec!["rooms".to_string()] };
    assert!(s.accept_handshake("good".to_string(), Some(init.clone())));
    assert_eq!(s.sessions(), &vec![Session { name: "good".to_string(), init }]);
}

#[test]
fn child_arguments() {
    assert_eq!(
        child_args(&"/etc/cfg.toml".to_string(), &"freenode".to_string()),
        vec!["--config".to_string(), "/etc/cfg.toml".to_string(), "--backend-name".to_string(), "freenode".to_string()]
    );
}

#[test]
fn json_frames() {
    let codec = JsonCodec;
    let v = codec.deserialize(b"{\"name\": \"irc\", \"capabilities\": []}").unwrap();
    assert_eq!(v["name"], serde_json::Value::String("irc".to_string()));
    assert_eq!(codec.deserialize(b"{not json"), Err(FrameError::InvalidJson));
}
