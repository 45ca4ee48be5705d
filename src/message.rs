//! IRC messages: the structured value, its rendering as a line, and its
//! parse from a line.
use vstd::prelude::*;
use vstd::utf8::{encode_utf8, valid_utf8};
use crate::wire::{
    copy_range, line_len, opt_view, parse_line, render, render_line, split_line, views, Line,
    LineView, CR, LF,
};

verus! {

/// The numeric reply that carries a channel topic, sent on joining a channel.
pub const RPL_TOPIC: u16 = 332;

/// Errors that occur while parsing mode strings.
#[derive(Debug, Clone, Copy, PartialEq, Eq)]
pub enum ModeParseError {
    /// The mode string does not start with a `+` or `-` modifier.
    MissingModeModifier,
}

/// Errors that occur when parsing messages.
#[derive(Debug, Clone, PartialEq, Eq)]
pub enum MessageParseError {
    /// The message was empty.
    EmptyMessage,
    /// The command was missing.
    InvalidCommand,
    /// The mode string was malformed.
    InvalidModeString { string: String, cause: ModeParseError },
    /// The subcommand used was invalid.
    InvalidSubcommand { cmd: String, sub: String },
}

/// Errors of the IRC codec.
#[derive(Debug, Clone, PartialEq, Eq)]
pub enum IrcError {
    /// A line was longer than the codec accepts.
    LineTooLong,
    /// A part of a line was not UTF-8.
    InvalidUtf8,
    /// A line did not form a message.
    InvalidMessage { line: Vec<u8>, cause: MessageParseError },
    /// An earlier error ended the stream.
    Failed,
}

/// An IRC command with its arguments.
#[derive(Debug, Clone, PartialEq, Eq)]
pub enum Command {
    /// NICK nickname
    NICK(String),
    /// USER user mode * :realname
    USER(String, String, String),
    /// JOIN channels [keys [realname]]
    JOIN(String, Option<String>, Option<String>),
    /// PRIVMSG target :text
    PRIVMSG(String, String),
    /// PING server [server2]
    PING(String, Option<String>),
    /// PONG server [server2]
    PONG(String, Option<String>),
    /// A numeric reply: its code, middle arguments and trailing argument.
    Response(u16, Vec<String>, Option<String>),
    /// Any other command: its name, middle arguments and trailing argument.
    Raw(String, Vec<String>, Option<String>),
}

/// One IRC message.
#[derive(Debug, Clone, PartialEq, Eq)]
pub struct Message {
    /// The IRCv3 tag section, without its leading `@`.
    pub tags: Option<String>,
    /// The sender, without its leading `:`.
    pub prefix: Option<String>,
    pub command: Command,
}

/// The UTF-8 bytes of a string.
pub open spec fn text(s: String) -> Seq<u8> {
    encode_utf8(s@)
}

pub open spec fn opt_text(o: Option<String>) -> Option<Seq<u8>> {
    match o {
        Some(s) => Some(text(s)),
        None => None,
    }
}

pub open spec fn texts(v: Seq<String>) -> Seq<Seq<u8>> {
    v.map_values(|s: String| text(s))
}

pub open spec fn opt_seq(o: Option<Seq<u8>>) -> Seq<Seq<u8>> {
    match o {
        Some(t) => seq![t],
        None => seq![],
    }
}

pub open spec fn nick_word() -> Seq<u8> {
    seq![78u8, 73u8, 67u8, 75u8]
}

pub open spec fn user_word() -> Seq<u8> {
    seq![85u8, 83u8, 69u8, 82u8]
}

pub open spec fn join_word() -> Seq<u8> {
    seq![74u8, 79u8, 73u8, 78u8]
}

pub open spec fn privmsg_word() -> Seq<u8> {
    seq![80u8, 82u8, 73u8, 86u8, 77u8, 83u8, 71u8]
}

pub open spec fn ping_word() -> Seq<u8> {
    seq![80u8, 73u8, 78u8, 71u8]
}

pub open spec fn pong_word() -> Seq<u8> {
    seq![80u8, 79u8, 78u8, 71u8]
}

/// The placeholder that USER sends in place of its unused argument.
pub open spec fn star_word() -> Seq<u8> {
    seq![42u8]
}

pub open spec fn is_digit(b: u8) -> bool {
    48u8 <= b <= 57u8
}

/// A command word of exactly three digits names a numeric reply.
pub open spec fn is_numeric(w: Seq<u8>) -> bool {
    w.len() == 3 && is_digit(w[0]) && is_digit(w[1]) && is_digit(w[2])
}

pub open spec fn numeric_value(w: Seq<u8>) -> u16 {
    ((w[0] - 48u8) * 100 + (w[1] - 48u8) * 10 + (w[2] - 48u8)) as u16
}

/// The three digits that name a reply code (its last three decimal digits).
pub open spec fn numeric_word(code: u16) -> Seq<u8> {
    seq![
        (48u8 + (code / 100) % 10) as u8,
        (48u8 + (code / 10) % 10) as u8,
        (48u8 + code % 10) as u8,
    ]
}

/// All arguments of a line: the middle ones, then the trailing one.
pub open spec fn args_of(l: LineView) -> Seq<Seq<u8>> {
    l.params + opt_seq(l.trailing)
}

/// Whether a line names one of the commands with a variant of their own,
/// with an argument count that fits it.
pub open spec fn is_known(l: LineView) -> bool {
    let n = args_of(l).len();
    ||| l.command == nick_word() && n == 1
    ||| l.command == user_word() && n == 4
    ||| l.command == join_word() && 1 <= n <= 3
    ||| l.command == privmsg_word() && n == 2
    ||| (l.command == ping_word() || l.command == pong_word()) && 1 <= n <= 2
    ||| is_numeric(l.command)
}

/// `c` is the command that the parts `l` of a line stand for.
pub open spec fn command_of_line(c: Command, l: LineView) -> bool {
    let a = args_of(l);
    match c {
        Command::NICK(n) => l.command == nick_word() && a.len() == 1 && text(n) == a[0],
        Command::USER(u, m, r) => l.command == user_word() && a.len() == 4 && text(u) == a[0]
            && text(m) == a[1] && text(r) == a[3],
        Command::JOIN(ch, k, n) => l.command == join_word() && 1 <= a.len() <= 3 && text(ch)
            == a[0] && opt_text(k) == (if a.len() >= 2 {
            Some(a[1])
        } else {
            None
        }) && opt_text(n) == (if a.len() == 3 {
            Some(a[2])
        } else {
            None
        }),
        Command::PRIVMSG(t, m) => l.command == privmsg_word() && a.len() == 2 && text(t) == a[0]
            && text(m) == a[1],
        Command::PING(s, s2) => l.command == ping_word() && 1 <= a.len() <= 2 && text(s) == a[0]
            && opt_text(s2) == (if a.len() == 2 {
            Some(a[1])
        } else {
            None
        }),
        Command::PONG(s, s2) => l.command == pong_word() && 1 <= a.len() <= 2 && text(s) == a[0]
            && opt_text(s2) == (if a.len() == 2 {
            Some(a[1])
        } else {
            None
        }),
        Command::Response(code, ps, t) => is_numeric(l.command) && code == numeric_value(
            l.command,
        ) && texts(ps@) == l.params && opt_text(t) == l.trailing,
        Command::Raw(name, ps, t) => !is_known(l) && text(name) == l.command && texts(ps@)
            == l.params && opt_text(t) == l.trailing,
    }
}

/// `m` is the message that the parts `l` of a line stand for.
pub open spec fn message_of_line(m: Message, l: LineView) -> bool {
    opt_text(m.tags) == l.tags && opt_text(m.prefix) == l.prefix && command_of_line(m.command, l)
}

pub open spec fn opt_valid(o: Option<Seq<u8>>) -> bool {
    match o {
        Some(t) => valid_utf8(t),
        None => true,
    }
}

/// Every part of the line is UTF-8.
pub open spec fn line_is_utf8(l: LineView) -> bool {
    &&& opt_valid(l.tags)
    &&& opt_valid(l.prefix)
    &&& valid_utf8(l.command)
    &&& forall|i: int| 0 <= i < l.params.len() ==> valid_utf8(#[trigger] l.params[i])
    &&& opt_valid(l.trailing)
}

/// The error that a line without a command word gives.
pub open spec fn missing_command_error(l: LineView) -> MessageParseError {
    if l.tags is None && l.prefix is None {
        MessageParseError::EmptyMessage
    } else {
        MessageParseError::InvalidCommand
    }
}

/// What parsing the line `b` (given without its terminator) gives: an error
/// when it has no command word or a part that is not UTF-8, else the message
/// that its parts stand for.
pub open spec fn parse_outcome(r: Result<Message, IrcError>, b: Seq<u8>) -> bool {
    let l = parse_line(b);
    if l.command.len() == 0 {
        r matches Err(IrcError::InvalidMessage { line, cause }) && line@ == b && cause
            == missing_command_error(l)
    } else if !line_is_utf8(l) {
        r == Err::<Message, IrcError>(IrcError::InvalidUtf8)
    } else if mode_invalid(l) {
        r matches Err(
            IrcError::InvalidMessage {
                line,
                cause: MessageParseError::InvalidModeString {
                    string,
                    cause: ModeParseError::MissingModeModifier,
                },
            },
        ) && line@ == b && text(string) == args_of(l)[1]
    } else if cap_invalid(l) {
        r matches Err(
            IrcError::InvalidMessage { line, cause: MessageParseError::InvalidSubcommand { cmd, sub } },
        ) && line@ == b && text(cmd) == cap_word() && text(sub) == args_of(l)[cap_sub_index(
            args_of(l),
        )]
    } else {
        r matches Ok(m) && message_of_line(m, l)
    }
}

pub open spec fn mode_word() -> Seq<u8> {
    seq![77u8, 79u8, 68u8, 69u8]
}

pub open spec fn cap_word() -> Seq<u8> {
    seq![67u8, 65u8, 80u8]
}

/// A MODE line whose mode string (its second argument) does not start with
/// `+` or `-`.
pub open spec fn mode_invalid(l: LineView) -> bool {
    let a = args_of(l);
    l.command == mode_word() && a.len() >= 2 && a[1].len() > 0 && a[1][0] != 43 && a[1][0] != 45
}

/// The argument of a CAP line that names its subcommand: the second when a
/// target comes first (three arguments or more), else the first.
pub open spec fn cap_sub_index(a: Seq<Seq<u8>>) -> int {
    if a.len() >= 3 {
        1
    } else {
        0
    }
}

/// The CAP subcommands: LS, LIST, REQ, ACK, NAK, END, NEW and DEL.
pub open spec fn is_cap_sub(s: Seq<u8>) -> bool {
    ||| s == seq![76u8, 83u8]
    ||| s == seq![76u8, 73u8, 83u8, 84u8]
    ||| s == seq![82u8, 69u8, 81u8]
    ||| s == seq![65u8, 67u8, 75u8]
    ||| s == seq![78u8, 65u8, 75u8]
    ||| s == seq![69u8, 78u8, 68u8]
    ||| s == seq![78u8, 69u8, 87u8]
    ||| s == seq![68u8, 69u8, 76u8]
}

/// A CAP line whose subcommand is not one of the CAP subcommands.
pub open spec fn cap_invalid(l: LineView) -> bool {
    let a = args_of(l);
    l.command == cap_word() && a.len() >= 1 && !is_cap_sub(a[cap_sub_index(a)])
}

/// The command word, middle parameters and trailing parameter that a command
/// is written with. A command with a variant of its own writes its last
/// argument as the trailing one.
pub open spec fn command_parts(c: Command) -> (Seq<u8>, Seq<Seq<u8>>, Option<Seq<u8>>) {
    match c {
        Command::NICK(n) => (nick_word(), seq![], Some(text(n))),
        Command::USER(u, m, r) => (user_word(), seq![text(u), text(m), star_word()], Some(text(r))),
        Command::JOIN(ch, None, None) => (join_word(), seq![], Some(text(ch))),
        Command::JOIN(ch, Some(k), None) => (join_word(), seq![text(ch)], Some(text(k))),
        Command::JOIN(ch, None, Some(n)) => (join_word(), seq![text(ch)], Some(text(n))),
        Command::JOIN(ch, Some(k), Some(n)) => (join_word(), seq![text(ch), text(k)], Some(text(n))),
        Command::PRIVMSG(t, m) => (privmsg_word(), seq![text(t)], Some(text(m))),
        Command::PING(s, None) => (ping_word(), seq![], Some(text(s))),
        Command::PING(s, Some(s2)) => (ping_word(), seq![text(s)], Some(text(s2))),
        Command::PONG(s, None) => (pong_word(), seq![], Some(text(s))),
        Command::PONG(s, Some(s2)) => (pong_word(), seq![text(s)], Some(text(s2))),
        Command::Response(code, ps, t) => (numeric_word(code), texts(ps@), opt_text(t)),
        Command::Raw(name, ps, t) => (text(name), texts(ps@), opt_text(t)),
    }
}

/// The parts of the line that a message is written as.
pub open spec fn line_of_message(m: Message) -> LineView {
    let (c, ps, t) = command_parts(m.command);
    LineView {
        tags: opt_text(m.tags),
        prefix: opt_text(m.prefix),
        command: c,
        params: ps,
        trailing: t,
    }
}

/// The text of a message, before it is cut to one line.
pub open spec fn message_text(m: Message) -> Seq<u8> {
    render_line(line_of_message(m))
}

/// What a message is sent as: its text up to the first CR or LF, then CR LF.
pub open spec fn encoded(m: Message) -> Seq<u8> {
    message_text(m).take(line_len(message_text(m)) as int) + seq![CR, LF]
}

/// Relies on String::from_utf8: it accepts exactly the UTF-8 byte vectors and
/// keeps their bytes.
#[verifier::external_body]
fn string_from_utf8(v: Vec<u8>) -> (r: Option<String>)
    ensures
        r is Some <==> valid_utf8(v@),
        r matches Some(s) ==> text(s) == v@,
{
    String::from_utf8(v).ok()
}

/// The UTF-8 bytes of `s`.
pub fn string_bytes(s: &String) -> (r: Vec<u8>)
    ensures
        r@ == text(*s),
{
    vstd::slice::slice_to_vec(s.as_str().as_bytes())
}

fn opt_string(o: Option<Vec<u8>>) -> (r: Option<Option<String>>)
    ensures
        r is Some <==> opt_valid(opt_view(o)),
        r matches Some(s) ==> opt_text(s) == opt_view(o),
{
    match o {
        Some(v) => match string_from_utf8(v) {
            Some(s) => Some(Some(s)),
            None => None,
        },
        None => Some(None),
    }
}

fn strings(v: &Vec<Vec<u8>>) -> (r: Option<Vec<String>>)
    ensures
        r is Some <==> forall|i: int| 0 <= i < v@.len() ==> valid_utf8(#[trigger] views(v@)[i]),
        r matches Some(s) ==> texts(s@) == views(v@),
{
    let mut out: Vec<String> = Vec::new();
    let mut i: usize = 0;
    while i < v.len()
        invariant
            i <= v@.len(),
            out@.len() == i,
            forall|j: int| 0 <= j < i ==> text(#[trigger] out@[j]) == views(v@)[j],
            forall|j: int| 0 <= j < i ==> valid_utf8(#[trigger] views(v@)[j]),
        decreases v@.len() - i,
    {
        let b = copy_range(v[i].as_slice(), 0, v[i].len());
        assert(b@ =~= views(v@)[i as int]);
        match string_from_utf8(b) {
            Some(s) => {
                out.push(s);
            },
            None => {
                return None;
            },
        }
        i = i + 1;
    }
    assert(texts(out@) =~= views(v@));
    Some(out)
}

/// Whether two byte strings are equal.
pub fn bytes_eq(a: &[u8], b: &[u8]) -> (r: bool)
    ensures
        r == (a@ == b@),
{
    if a.len() != b.len() {
        return false;
    }
    let mut i: usize = 0;
    while i < a.len()
        invariant
            a@.len() == b@.len(),
            i <= a@.len(),
            forall|j: int| 0 <= j < i ==> a@[j] == b@[j],
        decreases a@.len() - i,
    {
        if a[i] != b[i] {
            return false;
        }
        i = i + 1;
    }
    assert(a@ =~= b@);
    true
}

fn take_arg(args: &mut Vec<String>) -> (r: String)
    requires
        old(args)@.len() > 0,
    ensures
        r == old(args)@[0],
        final(args)@ == old(args)@.drop_first(),
{
    args.remove(0)
}

/// The argument at `k`: a middle one, or the trailing one after them.
fn arg_at(params: &Vec<String>, trailing: &Option<String>, k: usize) -> (r: String)
    requires
        k < params@.len() + opt_seq(opt_text(*trailing)).len(),
    ensures
        text(r) == (texts(params@) + opt_seq(opt_text(*trailing)))[k as int],
{
    if k < params.len() {
        params[k].clone()
    } else {
        match trailing {
            Some(t) => t.clone(),
            None => params[k].clone(),
        }
    }
}

fn is_cap_subcommand(s: &[u8]) -> (r: bool)
    ensures
        r == is_cap_sub(s@),
{
    let ls: [u8; 2] = [76u8, 83u8];
    let list: [u8; 4] = [76u8, 73u8, 83u8, 84u8];
    let req: [u8; 3] = [82u8, 69u8, 81u8];
    let ack: [u8; 3] = [65u8, 67u8, 75u8];
    let nak: [u8; 3] = [78u8, 65u8, 75u8];
    let end: [u8; 3] = [69u8, 78u8, 68u8];
    let new: [u8; 3] = [78u8, 69u8, 87u8];
    let del: [u8; 3] = [68u8, 69u8, 76u8];
    assert(ls@ =~= seq![76u8, 83u8]);
    assert(list@ =~= seq![76u8, 73u8, 83u8, 84u8]);
    assert(req@ =~= seq![82u8, 69u8, 81u8]);
    assert(ack@ =~= seq![65u8, 67u8, 75u8]);
    assert(nak@ =~= seq![78u8, 65u8, 75u8]);
    assert(end@ =~= seq![69u8, 78u8, 68u8]);
    assert(new@ =~= seq![78u8, 69u8, 87u8]);
    assert(del@ =~= seq![68u8, 69u8, 76u8]);
    bytes_eq(s, ls.as_slice()) || bytes_eq(s, list.as_slice()) || bytes_eq(s, req.as_slice())
        || bytes_eq(s, ack.as_slice()) || bytes_eq(s, nak.as_slice()) || bytes_eq(
        s,
        end.as_slice(),
    ) || bytes_eq(s, new.as_slice()) || bytes_eq(s, del.as_slice())
}

/// The error that the arguments of a MODE or CAP line give, if any.
fn argument_error(
    word: &Vec<u8>,
    params: &Vec<String>,
    trailing: &Option<String>,
    Ghost(l): Ghost<LineView>,
) -> (r: Option<MessageParseError>)
    requires
        l.command == word@,
        texts(params@) == l.params,
        opt_text(*trailing) == l.trailing,
    ensures
        mode_invalid(l) ==> (r matches Some(
            MessageParseError::InvalidModeString {
                string,
                cause: ModeParseError::MissingModeModifier,
            },
        ) && text(string) == args_of(l)[1]),
        !mode_invalid(l) && cap_invalid(l) ==> (r matches Some(
            MessageParseError::InvalidSubcommand { cmd, sub },
        ) && text(cmd) == cap_word() && text(sub) == args_of(l)[cap_sub_index(args_of(l))]),
        !mode_invalid(l) && !cap_invalid(l) ==> r is None,
{
    let ghost a = args_of(l);
    assert(texts(params@).len() == params@.len());
    assert(texts(params@) + opt_seq(opt_text(*trailing)) == a);
    let np = params.len();
    let n: usize = if np > 4 {
        5
    } else if trailing.is_some() {
        np + 1
    } else {
        np
    };
    assert(n == a.len() || (n == 5 && a.len() > 4));
    let mode: [u8; 4] = [77u8, 79u8, 68u8, 69u8];
    let cap: [u8; 3] = [67u8, 65u8, 80u8];
    assert(mode@ =~= mode_word());
    assert(cap@ =~= cap_word());
    if n >= 2 && bytes_eq(word.as_slice(), mode.as_slice()) {
        let m = arg_at(params, trailing, 1);
        let mb = string_bytes(&m);
        if mb.len() > 0 && mb[0] != 43u8 && mb[0] != 45u8 {
            return Some(
                MessageParseError::InvalidModeString {
                    string: m,
                    cause: ModeParseError::MissingModeModifier,
                },
            );
        }
        return None;
    }
    if n >= 1 && bytes_eq(word.as_slice(), cap.as_slice()) {
        let k: usize = if n >= 3 {
            1
        } else {
            0
        };
        let sub = arg_at(params, trailing, k);
        let sb = string_bytes(&sub);
        if !is_cap_subcommand(sb.as_slice()) {
            let word_copy = word_bytes(cap.as_slice());
            proof {
                reveal_with_fuel(valid_utf8, 4);
            }
            match string_from_utf8(word_copy) {
                Some(cmd) => {
                    return Some(MessageParseError::InvalidSubcommand { cmd, sub });
                },
                None => {
                    assert(false);
                    return None;
                },
            }
        }
        return None;
    }
    None
}

/// Names the command of a line whose parts have all been read as strings.
fn classify(
    word: &Vec<u8>,
    name: String,
    params: Vec<String>,
    trailing: Option<String>,
    Ghost(l): Ghost<LineView>,
) -> (r: Command)
    requires
        l.command == word@,
        text(name) == word@,
        texts(params@) == l.params,
        opt_text(trailing) == l.trailing,
    ensures
        command_of_line(r, l),
{
    let ghost a = args_of(l);
    if word.len() == 3 && 48u8 <= word[0] && word[0] <= 57u8 && 48u8 <= word[1] && word[1] <= 57u8
        && 48u8 <= word[2] && word[2] <= 57u8 {
        let code: u16 = ((word[0] - 48u8) as u16) * 100 + ((word[1] - 48u8) as u16) * 10 + ((
        word[2] - 48u8) as u16);
        return Command::Response(code, params, trailing);
    }
    // the number of arguments, capped above the largest count that any variant takes
    let np = params.len();
    let n: usize = if np > 4 {
        5
    } else if trailing.is_some() {
        np + 1
    } else {
        np
    };
    let nick: [u8; 4] = [78u8, 73u8, 67u8, 75u8];
    let user: [u8; 4] = [85u8, 83u8, 69u8, 82u8];
    let join: [u8; 4] = [74u8, 79u8, 73u8, 78u8];
    let privmsg: [u8; 7] = [80u8, 82u8, 73u8, 86u8, 77u8, 83u8, 71u8];
    let ping: [u8; 4] = [80u8, 73u8, 78u8, 71u8];
    let pong: [u8; 4] = [80u8, 79u8, 78u8, 71u8];
    assert(nick@ =~= nick_word());
    assert(user@ =~= user_word());
    assert(join@ =~= join_word());
    assert(privmsg@ =~= privmsg_word());
    assert(ping@ =~= ping_word());
    assert(pong@ =~= pong_word());
    let is_nick = n == 1 && bytes_eq(word.as_slice(), nick.as_slice());
    let is_user = n == 4 && bytes_eq(word.as_slice(), user.as_slice());
    let is_join = 1 <= n && n <= 3 && bytes_eq(word.as_slice(), join.as_slice());
    let is_privmsg = n == 2 && bytes_eq(word.as_slice(), privmsg.as_slice());
    let is_ping = 1 <= n && n <= 2 && bytes_eq(word.as_slice(), ping.as_slice());
    let is_pong = 1 <= n && n <= 2 && bytes_eq(word.as_slice(), pong.as_slice());
    assert(texts(params@).len() == params@.len());
    assert(a.len() == params@.len() + (if trailing is Some {
        1int
    } else {
        0int
    }));
    assert(n == a.len() || (n == 5 && a.len() > 4));
    if !(is_nick || is_user || is_join || is_privmsg || is_ping || is_pong) {
        assert(!is_numeric(l.command));
        return Command::Raw(name, params, trailing);
    }
    let mut args = params;
    match trailing {
        Some(t) => {
            args.push(t);
        },
        None => {},
    }
    assert(texts(args@) =~= a);
    assert(args@.len() == n);
    if is_nick {
        Command::NICK(take_arg(&mut args))
    } else if is_user {
        let u = take_arg(&mut args);
        let m = take_arg(&mut args);
        let _unused = take_arg(&mut args);
        let r = take_arg(&mut args);
        Command::USER(u, m, r)
    } else if is_join {
        let ch = take_arg(&mut args);
        let k = if n >= 2 {
            Some(take_arg(&mut args))
        } else {
            None
        };
        let rn = if n == 3 {
            Some(take_arg(&mut args))
        } else {
            None
        };
        Command::JOIN(ch, k, rn)
    } else if is_privmsg {
        let t = take_arg(&mut args);
        let m = take_arg(&mut args);
        Command::PRIVMSG(t, m)
    } else {
        let s = take_arg(&mut args);
        let s2 = if n == 2 {
            Some(take_arg(&mut args))
        } else {
            None
        };
        if is_ping {
            Command::PING(s, s2)
        } else {
            Command::PONG(s, s2)
        }
    }
}

impl Message {
    /// Parses one line, given without its terminator.
    pub fn parse(b: &[u8]) -> (r: Result<Message, IrcError>)
        ensures
            parse_outcome(r, b@),
    {
        let line = split_line(b);
        let ghost l = line@;
        if line.command.len() == 0 {
            let cause = if line.tags.is_none() && line.prefix.is_none() {
                MessageParseError::EmptyMessage
            } else {
                MessageParseError::InvalidCommand
            };
            let copy = copy_range(b, 0, b.len());
            assert(copy@ =~= b@);
            return Err(IrcError::InvalidMessage { line: copy, cause });
        }
        let Line { tags, prefix, command, params, trailing } = line;
        let tags = match opt_string(tags) {
            Some(t) => t,
            None => {
                return Err(IrcError::InvalidUtf8);
            },
        };
        let prefix = match opt_string(prefix) {
            Some(p) => p,
            None => {
                return Err(IrcError::InvalidUtf8);
            },
        };
        let copy = copy_range(command.as_slice(), 0, command.len());
        assert(copy@ =~= command@);
        let name = match string_from_utf8(copy) {
            Some(n) => n,
            None => {
                return Err(IrcError::InvalidUtf8);
            },
        };
        assert(l.params == views(params@));
        let params = match strings(&params) {
            Some(p) => p,
            None => {
                return Err(IrcError::InvalidUtf8);
            },
        };
        let trailing = match opt_string(trailing) {
            Some(t) => t,
            None => {
                return Err(IrcError::InvalidUtf8);
            },
        };
        match argument_error(&command, &params, &trailing, Ghost(l)) {
            Some(cause) => {
                let copy = copy_range(b, 0, b.len());
                assert(copy@ =~= b@);
                return Err(IrcError::InvalidMessage { line: copy, cause });
            },
            None => {},
        }
        let command = classify(&command, name, params, trailing, Ghost(l));
        Ok(Message { tags, prefix, command })
    }
}

fn opt_bytes(o: &Option<String>) -> (r: Option<Vec<u8>>)
    ensures
        opt_view(r) == opt_text(*o),
{
    match o {
        Some(x) => Some(string_bytes(x)),
        None => None,
    }
}

fn all_bytes(v: &Vec<String>) -> (r: Vec<Vec<u8>>)
    ensures
        views(r@) == texts(v@),
{
    let mut out: Vec<Vec<u8>> = Vec::new();
    let mut i: usize = 0;
    while i < v.len()
        invariant
            i <= v@.len(),
            out@.len() == i,
            forall|j: int| 0 <= j < i ==> (#[trigger] out@[j])@ == text(v@[j]),
        decreases v@.len() - i,
    {
        out.push(string_bytes(&v[i]));
        i = i + 1;
    }
    assert(views(out@) =~= texts(v@));
    out
}

fn numeric_bytes(code: u16) -> (r: Vec<u8>)
    ensures
        r@ == numeric_word(code),
{
    let mut r: Vec<u8> = Vec::new();
    r.push((48 + (code / 100) % 10) as u8);
    r.push((48 + (code / 10) % 10) as u8);
    r.push((48 + code % 10) as u8);
    assert(r@ =~= numeric_word(code));
    r
}

fn word_bytes(w: &[u8]) -> (r: Vec<u8>)
    ensures
        r@ == w@,
{
    vstd::slice::slice_to_vec(w)
}

impl Message {
    /// The parts of the line that this message is written as.
    pub fn to_line(&self) -> (r: Line)
        ensures
            r@ == line_of_message(*self),
    {
        let nick: [u8; 4] = [78u8, 73u8, 67u8, 75u8];
        let user: [u8; 4] = [85u8, 83u8, 69u8, 82u8];
        let join: [u8; 4] = [74u8, 79u8, 73u8, 78u8];
        let privmsg: [u8; 7] = [80u8, 82u8, 73u8, 86u8, 77u8, 83u8, 71u8];
        let ping: [u8; 4] = [80u8, 73u8, 78u8, 71u8];
        let pong: [u8; 4] = [80u8, 79u8, 78u8, 71u8];
        assert(nick@ =~= nick_word());
        assert(user@ =~= user_word());
        assert(join@ =~= join_word());
        assert(privmsg@ =~= privmsg_word());
        assert(ping@ =~= ping_word());
        assert(pong@ =~= pong_word());
        let tags = opt_bytes(&self.tags);
        let prefix = opt_bytes(&self.prefix);
        let (command, params, trailing): (Vec<u8>, Vec<Vec<u8>>, Option<Vec<u8>>) = match &self.command {
            Command::NICK(n) => (word_bytes(nick.as_slice()), vec![], Some(string_bytes(n))),
            Command::USER(u, m, r) => {
                let star: Vec<u8> = vec![42u8];
                assert(star@ =~= star_word());
                (
                    word_bytes(user.as_slice()),
                    vec![string_bytes(u), string_bytes(m), star],
                    Some(string_bytes(r)),
                )
            },
            Command::JOIN(ch, None, None) => (
                word_bytes(join.as_slice()),
                vec![],
                Some(string_bytes(ch)),
            ),
            Command::JOIN(ch, Some(k), None) => (
                word_bytes(join.as_slice()),
                vec![string_bytes(ch)],
                Some(string_bytes(k)),
            ),
            Command::JOIN(ch, None, Some(n)) => (
                word_bytes(join.as_slice()),
                vec![string_bytes(ch)],
                Some(string_bytes(n)),
            ),
            Command::JOIN(ch, Some(k), Some(n)) => (
                word_bytes(join.as_slice()),
                vec![string_bytes(ch), string_bytes(k)],
                Some(string_bytes(n)),
            ),
            Command::PRIVMSG(t, m) => (
                word_bytes(privmsg.as_slice()),
                vec![string_bytes(t)],
                Some(string_bytes(m)),
            ),
            Command::PING(x, None) => (word_bytes(ping.as_slice()), vec![], Some(string_bytes(x))),
            Command::PING(x, Some(y)) => (
                word_bytes(ping.as_slice()),
                vec![string_bytes(x)],
                Some(string_bytes(y)),
            ),
            Command::PONG(x, None) => (word_bytes(pong.as_slice()), vec![], Some(string_bytes(x))),
            Command::PONG(x, Some(y)) => (
                word_bytes(pong.as_slice()),
                vec![string_bytes(x)],
                Some(string_bytes(y)),
            ),
            Command::Response(code, ps, t) => (numeric_bytes(*code), all_bytes(ps), opt_bytes(t)),
            Command::Raw(name, ps, t) => (string_bytes(name), all_bytes(ps), opt_bytes(t)),
        };
        let r = Line { tags, prefix, command, params, trailing };
        assert(views(r.params@) =~= line_of_message(*self).params);
        r
    }

    /// The text of this message, before it is cut to one line.
    pub fn to_text(&self) -> (r: Vec<u8>)
        ensures
            r@ == message_text(*self),
    {
        render(&self.to_line())
    }
}

} // verus!
