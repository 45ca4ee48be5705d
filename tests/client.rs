use flubber_irc::backend::Config as BackendConfig;
use flubber_irc::client::{Client, ClientError, Config};
use flubber_irc::message::{Command, Message};

fn config() -> Config {
    Config { host: "127.0.0.1".to_string(), port: 6667, ssl: false, nick: "hello".to_string() }
}

fn bare(command: Command) -> Message {
    Message { tags: None, prefix: None, command }
}

#[test]
fn ping_is_answered_and_hidden() {
    let mut c = Client::with_config(config());
    let ping = bare(Command::PING("abc123".to_string(), None));
    assert_eq!(c.receive(ping), Ok(None));
    assert_eq!(c.take_outbound(), vec![bare(Command::PONG("abc123".to_string(), None))]);
    assert_eq!(c.take_outbound(), Vec::<Message>::new());
}

#[test]
fn other_messages_pass_through() {
    let mut c = Client::with_config(config());
    let m = bare(Command::PRIVMSG("#a".to_string(), "x".to_string()));
    assert_eq!(c.receive(m.clone()), Ok(Some(m)));
    assert!(c.take_outbound().is_empty());
}

#[test]
fn ping_after_close_is_error() {
    let mut c = Client::with_config(config());
    c.close();
    assert_eq!(c.receive(bare(Command::PING("t".to_string(), None))), Err(ClientError::Send));
    assert!(c.take_outbound().is_empty());
}

#[test]
fn register_sends_nick_then_user() {
    let mut c = Client::with_config(config());
    c.register().unwrap();
    assert_eq!(
        c.take_outbound(),
        vec![
            bare(Command::NICK("hello".to_string())),
            bare(Command::USER("hello".to_string(), "hello".to_string(), "hello".to_string())),
        ]
    );
}

#[test]
fn send_queues_in_order_and_fails_when_closed() {
    let mut c = Client::with_config(config());
    let a = bare(Command::NICK("a".to_string()));
    let b = bare(Command::NICK("b".to_string()));
    c.send(a.clone()).unwrap();
    c.send(b.clone()).unwrap();
    assert_eq!(c.take_outbound(), vec![a.clone(), b]);
    c.close();
    assert_eq!(c.send(a), Err(ClientError::Send));
    assert_eq!(c.config(), &config());
}

#[test]
fn backend_config_converts() {
    let b = BackendConfig { host: "irc.example".to_string(), nick: "bot".to_string(), port: 6697, ssl: true };
    assert_eq!(
        b.irc_config(),
        Config { host: "irc.example".to_string(), port: 6697, ssl: true, nick: "bot".to_string() }
    );
}

#[test]
fn irc_config_from_backend_config() {
    let b = BackendConfig { host: "h".to_string(), nick: "n".to_string(), port: 1, ssl: false };
    assert_eq!(Config::from(&b), Config { host: "h".to_string(), port: 1, ssl: false, nick: "n".to_string() });
}
