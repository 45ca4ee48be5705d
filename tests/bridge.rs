use flubber_irc::bridge::{recipient_for, TranslateError, Translator};
use flubber_irc::chat::{
    MessageContent, MessageID, NewMessage, Request, RequestBody, Room, RoomID, RoomIDOrUserID,
    Timestamp, Update, UserID,
};
use flubber_irc::message::{Command, Message as IrcMessage, RPL_TOPIC};

fn topic(channel: &str) -> IrcMessage {
    IrcMessage {
        tags: None,
        prefix: Some("irc.example".to_string()),
        command: Command::Response(RPL_TOPIC, vec![channel.to_string(), "x".to_string()], Some("topic".to_string())),
    }
}

fn join(t: &mut Translator, channel: &str) -> Option<IrcMessage> {
    t.handle_request(Request { sequence_number: 1, body: RequestBody::RoomJoin(RoomID(channel.to_string())) })
}

fn room(channel: &str) -> Update {
    Update::RoomUpsert(Room { id: RoomID(channel.to_string()), name: channel.to_string(), parent: None, sendable: true })
}

fn t0() -> Timestamp {
    Timestamp { secs: 1_600_000_000, nanos: 5 }
}

fn id() -> MessageID {
    MessageID("id-1".to_string())
}

#[test]
fn target_classification() {
    assert_eq!(recipient_for("#general".to_string()), RoomIDOrUserID::Room(RoomID("#general".to_string())));
    assert_eq!(recipient_for("&local".to_string()), RoomIDOrUserID::Room(RoomID("&local".to_string())));
    assert_eq!(recipient_for("alice".to_string()), RoomIDOrUserID::User(UserID("alice".to_string())));
    assert_eq!(recipient_for(String::new()), RoomIDOrUserID::User(UserID(String::new())));
}

#[test]
fn join_request_emits_join() {
    let mut t = Translator::new();
    let out = join(&mut t, "#test").unwrap();
    assert_eq!(out.command, Command::JOIN("#test".to_string(), None, None));
    assert_eq!(out.prefix, None);
    assert!(t.is_pending(&"#test".to_string()));
}

#[test]
fn message_send_is_no_op() {
    let mut t = Translator::new();
    let body = RequestBody::MessageSend(NewMessage {
        recipient: RoomIDOrUserID::Room(RoomID("#a".to_string())),
        content: MessageContent::Text("x".to_string()),
    });
    assert_eq!(t.handle_request(Request { sequence_number: 2, body }), None);
}

#[test]
fn join_correlation() {
    let mut t = Translator::new();
    join(&mut t, "#test");
    assert_eq!(t.handle_message(topic("#test"), id(), t0()), Ok(Some(room("#test"))));
    assert_eq!(t.handle_message(topic("#test"), id(), t0()), Ok(None));
    assert_eq!(t.handle_message(topic("#other"), id(), t0()), Ok(None));
    assert!(!t.is_pending(&"#test".to_string()));
}

#[test]
fn concurrent_correlation() {
    let mut t = Translator::new();
    join(&mut t, "#a");
    join(&mut t, "#b");
    assert_eq!(t.handle_message(topic("#b"), id(), t0()), Ok(Some(room("#b"))));
    assert!(t.is_pending(&"#a".to_string()));
    assert_eq!(t.handle_message(topic("#a"), id(), t0()), Ok(Some(room("#a"))));
    assert_eq!(t.handle_message(topic("#b"), id(), t0()), Ok(None));
}

#[test]
fn topic_from_trailing_only() {
    let mut t = Translator::new();
    join(&mut t, "#t");
    let m = IrcMessage { tags: None, prefix: None, command: Command::Response(RPL_TOPIC, vec![], Some("#t".to_string())) };
    assert_eq!(t.handle_message(m, id(), t0()), Ok(Some(room("#t"))));
}

#[test]
fn other_response_ignored() {
    let mut t = Translator::new();
    join(&mut t, "#t");
    let m = IrcMessage { tags: None, prefix: None, command: Command::Response(1, vec!["#t".to_string()], None) };
    assert_eq!(t.handle_message(m, id(), t0()), Ok(None));
    assert!(t.is_pending(&"#t".to_string()));
}

#[test]
fn privmsg_becomes_message_update() {
    let mut t = Translator::new();
    let m = IrcMessage {
        tags: None,
        prefix: Some("alice".to_string()),
        command: Command::PRIVMSG("#general".to_string(), "hi".to_string()),
    };
    match t.handle_message(m, id(), t0()) {
        Ok(Some(Update::MessageUpsert(cm))) => {
            assert_eq!(cm.id, id());
            assert_eq!(cm.sender, UserID("alice".to_string()));
            assert_eq!(cm.recipient, RoomIDOrUserID::Room(RoomID("#general".to_string())));
            assert_eq!(cm.content, MessageContent::Text("hi".to_string()));
            assert_eq!(cm.create_time, t0());
            assert_eq!(cm.edit_time, t0());
            assert!(cm.attachments.is_empty());
        }
        other => panic!("unexpected {:?}", other),
    }
}

#[test]
fn privmsg_without_sender_is_error() {
    let mut t = Translator::new();
    let m = IrcMessage { tags: None, prefix: None, command: Command::PRIVMSG("bob".to_string(), "hi".to_string()) };
    assert_eq!(t.handle_message(m, id(), t0()), Err(TranslateError::MissingSender));
}

#[test]
fn translate_uses_fresh_id() {
    let mut t = Translator::new();
    let m = IrcMessage {
        tags: None,
        prefix: Some("alice".to_string()),
        command: Command::PRIVMSG("bob".to_string(), "hi".to_string()),
    };
    let a = t.translate(m.clone());
    let b = t.translate(m);
    match (a, b) {
        (Ok(Some(Update::MessageUpsert(x))), Ok(Some(Update::MessageUpsert(y)))) => {
            assert_eq!(x.id.0.len(), 36);
            assert_ne!(x.id, y.id);
            assert_eq!(x.recipient, RoomIDOrUserID::User(UserID("bob".to_string())));
            assert!(x.create_time.secs > 0);
        }
        other => panic!("unexpected {:?}", other),
    }
}
