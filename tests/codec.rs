use flubber_irc::codec::IrcCodec;
use flubber_irc::message::{Command, IrcError, Message, MessageParseError, ModeParseError, RPL_TOPIC};
use flubber_irc::wire::{sanitize, split_line};

fn msg(command: Command) -> Message {
    Message { tags: None, prefix: None, command }
}

fn encode(m: Message) -> Vec<u8> {
    let mut codec = IrcCodec::new();
    let mut out = Vec::new();
    codec.encode(m, &mut out).unwrap();
    out
}

#[test]
fn sanitize_keeps_first_line() {
    assert_eq!(sanitize(b"abc\r\ndef".to_vec()), b"abc\r\n".to_vec());
    assert_eq!(sanitize(b"abc\rdef".to_vec()), b"abc\r".to_vec());
    assert_eq!(sanitize(b"abc\ndef".to_vec()), b"abc\n".to_vec());
    assert_eq!(sanitize(b"abc\n\rdef".to_vec()), b"abc\n".to_vec());
    assert_eq!(sanitize(b"no end".to_vec()), b"no end".to_vec());
    assert_eq!(sanitize(Vec::new()), Vec::<u8>::new());
}

#[test]
fn encode_privmsg_injection_crlf() {
    let m = msg(Command::PRIVMSG("#x".to_string(), "hello\r\nJOIN #evil".to_string()));
    assert_eq!(encode(m), b"PRIVMSG #x :hello\r\n".to_vec());
}

#[test]
fn encode_privmsg_injection_cr() {
    let m = msg(Command::PRIVMSG("#x".to_string(), "hello\rJOIN #evil".to_string()));
    assert_eq!(encode(m), b"PRIVMSG #x :hello\r\n".to_vec());
}

#[test]
fn encode_privmsg_injection_lf() {
    let m = msg(Command::PRIVMSG("#x".to_string(), "hello\nJOIN #evil".to_string()));
    assert_eq!(encode(m), b"PRIVMSG #x :hello\r\n".to_vec());
}

#[test]
fn encode_commands() {
    assert_eq!(encode(msg(Command::NICK("bob".to_string()))), b"NICK :bob\r\n".to_vec());
    assert_eq!(
        encode(msg(Command::USER("bob".to_string(), "bob".to_string(), "bob".to_string()))),
        b"USER bob bob * :bob\r\n".to_vec()
    );
    assert_eq!(encode(msg(Command::JOIN("#test".to_string(), None, None))), b"JOIN :#test\r\n".to_vec());
    assert_eq!(encode(msg(Command::PONG("abc123".to_string(), None))), b"PONG :abc123\r\n".to_vec());
    assert_eq!(
        encode(msg(Command::PING("a".to_string(), Some("b".to_string())))),
        b"PING a :b\r\n".to_vec()
    );
    let topic = Message {
        tags: Some("k=v".to_string()),
        prefix: Some("irc.example".to_string()),
        command: Command::Response(RPL_TOPIC, vec!["me".to_string(), "#test".to_string()], Some("the topic".to_string())),
    };
    assert_eq!(encode(topic), b"@k=v :irc.example 332 me #test :the topic\r\n".to_vec());
    assert_eq!(
        encode(msg(Command::Response(1, vec!["me".to_string()], None))),
        b"001 me\r\n".to_vec()
    );
}

#[test]
fn parse_privmsg_with_prefix() {
    let m = Message::parse(b":alice!a@host PRIVMSG #general :hi there").unwrap();
    assert_eq!(m.prefix, Some("alice!a@host".to_string()));
    assert_eq!(m.tags, None);
    assert_eq!(m.command, Command::PRIVMSG("#general".to_string(), "hi there".to_string()));
}

#[test]
fn parse_known_and_raw_commands() {
    assert_eq!(Message::parse(b"PING :abc123").unwrap().command, Command::PING("abc123".to_string(), None));
    assert_eq!(Message::parse(b"NICK  bob").unwrap().command, Command::NICK("bob".to_string()));
    assert_eq!(
        Message::parse(b"USER u m x :Real Name").unwrap().command,
        Command::USER("u".to_string(), "m".to_string(), "Real Name".to_string())
    );
    assert_eq!(
        Message::parse(b"JOIN #a key").unwrap().command,
        Command::JOIN("#a".to_string(), Some("key".to_string()), None)
    );
    assert_eq!(
        Message::parse(b"NICK a b").unwrap().command,
        Command::Raw("NICK".to_string(), vec!["a".to_string(), "b".to_string()], None)
    );
    assert_eq!(
        Message::parse(b"@t=1 :srv 332 me #test :Topic here").unwrap(),
        Message {
            tags: Some("t=1".to_string()),
            prefix: Some("srv".to_string()),
            command: Command::Response(332, vec!["me".to_string(), "#test".to_string()], Some("Topic here".to_string())),
        }
    );
}

#[test]
fn parse_errors() {
    assert_eq!(
        Message::parse(b"   "),
        Err(IrcError::InvalidMessage { line: b"   ".to_vec(), cause: MessageParseError::EmptyMessage })
    );
    assert_eq!(
        Message::parse(b":prefix.only"),
        Err(IrcError::InvalidMessage { line: b":prefix.only".to_vec(), cause: MessageParseError::InvalidCommand })
    );
    assert_eq!(Message::parse(b"PRIVMSG #x :\xff\xfe"), Err(IrcError::InvalidUtf8));
}

#[test]
fn split_line_parts() {
    let l = split_line(b"@a=b :pre CMD x  y :t r");
    assert_eq!(l.tags, Some(b"a=b".to_vec()));
    assert_eq!(l.prefix, Some(b"pre".to_vec()));
    assert_eq!(l.command, b"CMD".to_vec());
    assert_eq!(l.params, vec![b"x".to_vec(), b"y".to_vec()]);
    assert_eq!(l.trailing, Some(b"t r".to_vec()));
}

#[test]
fn decode_lines_and_need_more_data() {
    let mut codec = IrcCodec::new();
    let mut buf = b"PING :a\r\nNICK bob\rPRIVMSG #x :partial".to_vec();
    let first = codec.decode(&mut buf).unwrap().unwrap();
    assert_eq!(first.command, Command::PING("a".to_string(), None));
    let second = codec.decode(&mut buf).unwrap().unwrap();
    assert_eq!(second.command, Command::NICK("bob".to_string()));
    assert_eq!(codec.decode(&mut buf), Ok(None));
    assert_eq!(buf, b"PRIVMSG #x :partial".to_vec());
    buf.extend_from_slice(b"\n");
    let third = codec.decode(&mut buf).unwrap().unwrap();
    assert_eq!(third.command, Command::PRIVMSG("#x".to_string(), "partial".to_string()));
    assert_eq!(codec.decode(&mut buf), Ok(None));
}

#[test]
fn decode_line_too_long() {
    let mut codec = IrcCodec::new_with_max_length(4);
    let mut buf = b"PRIVMSG #x :long\r\n".to_vec();
    assert_eq!(codec.decode(&mut buf), Err(IrcError::LineTooLong));
    let mut fresh = IrcCodec::new_with_max_length(4);
    let mut partial = b"PRIVMSG".to_vec();
    assert_eq!(fresh.decode(&mut partial), Err(IrcError::LineTooLong));
    assert_eq!(fresh.max_length(), 4);
}

#[test]
fn round_trip_is_semantic() {
    let lines: [&[u8]; 5] = [
        b":nick!u@h PRIVMSG #chan :hello   world",
        b"PING  server1   :server2",
        b"@a=1;b :srv 332 me #test :topic",
        b"FOO bar baz",
        b"JOIN #a k :real",
    ];
    for line in lines.iter() {
        let m = Message::parse(line).unwrap();
        let mut wire = encode(m.clone());
        assert!(wire.ends_with(b"\r\n"));
        wire.truncate(wire.len() - 2);
        assert_eq!(Message::parse(&wire).unwrap(), m);
    }
}

#[test]
fn parse_mode_strings() {
    assert_eq!(
        Message::parse(b"MODE #chan o nick"),
        Err(IrcError::InvalidMessage {
            line: b"MODE #chan o nick".to_vec(),
            cause: MessageParseError::InvalidModeString {
                string: "o".to_string(),
                cause: ModeParseError::MissingModeModifier,
            },
        })
    );
    assert_eq!(
        Message::parse(b":me MODE me :+i").unwrap().command,
        Command::Raw("MODE".to_string(), vec!["me".to_string()], Some("+i".to_string()))
    );
    assert!(Message::parse(b"MODE #chan -o nick").is_ok());
    assert!(Message::parse(b"MODE #chan").is_ok());
}

#[test]
fn parse_cap_subcommands() {
    assert_eq!(
        Message::parse(b"CAP FOO"),
        Err(IrcError::InvalidMessage {
            line: b"CAP FOO".to_vec(),
            cause: MessageParseError::InvalidSubcommand { cmd: "CAP".to_string(), sub: "FOO".to_string() },
        })
    );
    assert_eq!(
        Message::parse(b"CAP * BAD :x"),
        Err(IrcError::InvalidMessage {
            line: b"CAP * BAD :x".to_vec(),
            cause: MessageParseError::InvalidSubcommand { cmd: "CAP".to_string(), sub: "BAD".to_string() },
        })
    );
    assert!(Message::parse(b"CAP * LS :multi-prefix sasl").is_ok());
    assert!(Message::parse(b"CAP REQ :sasl").is_ok());
    assert!(Message::parse(b"CAP END").is_ok());
}

#[test]
fn decode_reports_parse_errors() {
    let mut codec = IrcCodec::new();
    let mut buf = b":only.prefix\r\nPING :x\r\n".to_vec();
    assert_eq!(
        codec.decode(&mut buf),
        Err(IrcError::InvalidMessage { line: b":only.prefix".to_vec(), cause: MessageParseError::InvalidCommand })
    );
}

#[test]
fn decode_consumes_crlf_as_one_terminator() {
    let mut codec = IrcCodec::new();
    let mut buf = b"NICK a\r\nNICK b\r\n".to_vec();
    assert_eq!(codec.decode(&mut buf).unwrap().unwrap().command, Command::NICK("a".to_string()));
    assert_eq!(buf, b"NICK b\r\n".to_vec());
    assert_eq!(codec.decode(&mut buf).unwrap().unwrap().command, Command::NICK("b".to_string()));
    assert!(buf.is_empty());
}

#[test]
fn decode_empty_line_is_error() {
    let mut codec = IrcCodec::new();
    let mut buf = b"\r\n".to_vec();
    assert_eq!(
        codec.decode(&mut buf),
        Err(IrcError::InvalidMessage { line: Vec::new(), cause: MessageParseError::EmptyMessage })
    );
    assert!(buf.is_empty());
}

#[test]
fn decode_waits_on_final_cr() {
    let mut codec = IrcCodec::new();
    let mut buf = b"NICK a\r".to_vec();
    assert_eq!(codec.decode(&mut buf), Ok(None));
    assert_eq!(buf, b"NICK a\r".to_vec());
    buf.extend_from_slice(b"NICK b");
    assert_eq!(codec.decode(&mut buf).unwrap().unwrap().command, Command::NICK("a".to_string()));
    assert_eq!(buf, b"NICK b".to_vec());
}

#[test]
fn decode_error_ends_stream() {
    let mut codec = IrcCodec::new();
    let mut buf = b"\nPING :x\r\n".to_vec();
    assert_eq!(
        codec.decode(&mut buf),
        Err(IrcError::InvalidMessage { line: Vec::new(), cause: MessageParseError::EmptyMessage })
    );
    assert_eq!(buf, b"PING :x\r\n".to_vec());
    assert_eq!(codec.decode(&mut buf), Err(IrcError::Failed));
    assert_eq!(buf, b"PING :x\r\n".to_vec());
}
