//! The bridge translator: turns chat-bus requests into IRC commands and IRC
//! messages into chat-bus updates, pairing each channel join it asked for
//! with the topic reply that confirms it.
use vstd::prelude::*;
use crate::chat::{
    Message, MessageContent, MessageID, Request, RequestBody, Room, RoomID, RoomIDOrUserID,
    Timestamp, Update, UserID,
};
use crate::message::{text, Command, Message as IrcMessage, RPL_TOPIC};

verus! {

/// A target names a room when it starts with `#` or `&`.
pub open spec fn is_room_name(b: Seq<u8>) -> bool {
    b.len() > 0 && (b[0] == 35 || b[0] == 38)
}

/// The recipient that a PRIVMSG target stands for.
pub open spec fn recipient_of(target: String) -> RoomIDOrUserID {
    if is_room_name(text(target)) {
        RoomIDOrUserID::Room(RoomID(target))
    } else {
        RoomIDOrUserID::User(UserID(target))
    }
}

/// Classifies a PRIVMSG target as a room or a user.
pub fn recipient_for(target: String) -> (r: RoomIDOrUserID)
    ensures
        r == recipient_of(target),
{
    let b = target.as_str().as_bytes();
    if b.len() > 0 && (b[0] == 35u8 || b[0] == 38u8) {
        RoomIDOrUserID::Room(RoomID(target))
    } else {
        RoomIDOrUserID::User(UserID(target))
    }
}

/// The room that a confirmed join of channel `name` announces.
pub open spec fn joined_room(name: String) -> Room {
    Room { id: RoomID(name), name, parent: None, sendable: true }
}

/// The channel that a topic reply is about: its first argument.
pub open spec fn topic_channel(m: IrcMessage) -> Option<String> {
    match m.command {
        Command::Response(code, args, t) => if code != RPL_TOPIC {
            None
        } else if args@.len() > 0 {
            Some(args@[0])
        } else {
            t
        },
        _ => None,
    }
}

/// `m` is the chat message that a PRIVMSG from `sender` stands for.
pub open spec fn is_chat_message(
    m: Message,
    sender: String,
    target: String,
    content: String,
    id: MessageID,
    now: Timestamp,
) -> bool {
    &&& m.id == id
    &&& m.sender == UserID(sender)
    &&& m.recipient == recipient_of(target)
    &&& m.content == MessageContent::Text(content)
    &&& m.create_time == now
    &&& m.edit_time == now
    &&& m.attachments@.len() == 0
}

/// What handling the IRC message `msg` does to the awaited joins (`before`,
/// then `after`) and what it returns, given the id and time for a new message.
pub open spec fn message_outcome(
    before: Set<Seq<char>>,
    after: Set<Seq<char>>,
    msg: IrcMessage,
    id: MessageID,
    now: Timestamp,
    r: Result<Option<Update>, TranslateError>,
) -> bool {
    match msg.command {
        Command::PRIVMSG(target, content) => after == before && match msg.prefix {
            Some(sender) => r matches Ok(Some(Update::MessageUpsert(cm))) && is_chat_message(
                cm,
                sender,
                target,
                content,
                id,
                now,
            ),
            None => r == Err::<Option<Update>, TranslateError>(
                TranslateError::MissingSender,
            ),
        },
        _ => match topic_channel(msg) {
            Some(ch) => if before.contains(ch@) {
                after == before.remove(ch@) && r == Ok::<
                    Option<Update>,
                    TranslateError,
                >(Some(Update::RoomUpsert(joined_room(ch))))
            } else {
                after == before && r == Ok::<Option<Update>, TranslateError>(
                    None,
                )
            },
            None => after == before && r == Ok::<Option<Update>, TranslateError>(
                None,
            ),
        },
    }
}

/// Relies on uuid's Uuid::new_v4 and its Display: a random version 4 UUID,
/// written hyphenated in 36 characters.
#[verifier::external_body]
fn new_message_id() -> (r: MessageID)
    ensures
        r.0@.len() == 36,
{
    MessageID(uuid::Uuid::new_v4().to_string())
}

/// Relies on chrono's Utc::now: the current time, read as whole seconds since
/// the Unix epoch and the nanoseconds past them.
#[verifier::external_body]
fn now() -> (r: Timestamp) {
    let t = chrono::Utc::now();
    Timestamp { secs: t.timestamp(), nanos: t.timestamp_subsec_nanos() }
}

/// Why an IRC message could not be translated.
#[derive(Debug, Clone, Copy, PartialEq, Eq)]
pub enum TranslateError {
    /// A PRIVMSG came without a sender prefix; the message is skipped.
    MissingSender,
}

/// The join request message for a channel.
pub open spec fn join_message(channel: String) -> IrcMessage {
    IrcMessage { tags: None, prefix: None, command: Command::JOIN(channel, None, None) }
}

/// The translator, with the set of channels whose join is awaiting its topic reply.
pub struct Translator {
    pending: Vec<String>,
}

impl View for Translator {
    type V = Set<Seq<char>>;

    closed spec fn view(&self) -> Set<Seq<char>> {
        Set::new(|x: Seq<char>| exists|i: int| 0 <= i < self.pending@.len() && self.pending@[i]@ == x)
    }
}

impl Translator {
    /// No channel is named twice.
    pub closed spec fn wf(&self) -> bool {
        forall|i: int, j: int|
            0 <= i < j < self.pending@.len() ==> self.pending@[i]@ != self.pending@[j]@
    }

    /// A translator with no join awaiting confirmation.
    pub fn new() -> (r: Translator)
        ensures
            r.wf(),
            r@ == Set::<Seq<char>>::empty(),
    {
        let r = Translator { pending: Vec::new() };
        assert(r@ =~= Set::<Seq<char>>::empty());
        r
    }

    /// Whether a join of `name` awaits confirmation.
    pub fn is_pending(&self, name: &String) -> (r: bool)
        ensures
            r == self@.contains(name@),
    {
        let mut i: usize = 0;
        while i < self.pending.len()
            invariant
                i <= self.pending@.len(),
                forall|j: int| 0 <= j < i ==> self.pending@[j]@ != name@,
            decreases self.pending@.len() - i,
        {
            if self.pending[i] == *name {
                assert(self@.contains(name@)) by {
                    assert(self.pending@[i as int]@ == name@);
                }
                return true;
            }
            i = i + 1;
        }
        false
    }

    /// Records that a join of `name` was requested.
    pub fn add_pending(&mut self, name: String)
        requires
            old(self).wf(),
        ensures
            final(self).wf(),
            final(self)@ == old(self)@.insert(name@),
    {
        if self.is_pending(&name) {
            assert(self@ =~= old(self)@.insert(name@));
            return;
        }
        let ghost n = name@;
        self.pending.push(name);
        assert(self.pending@[self.pending@.len() - 1]@ == n);
        assert forall|x: Seq<char>| #[trigger] self@.contains(x) <==> old(self)@.insert(n).contains(x) by {
            if old(self)@.contains(x) {
                let i = choose|i: int| 0 <= i < old(self).pending@.len() && old(self).pending@[i]@ == x;
                assert(self.pending@[i]@ == x);
            }
            if self@.contains(x) && x != n {
                let i = choose|i: int| 0 <= i < self.pending@.len() && self.pending@[i]@ == x;
                assert(old(self).pending@[i]@ == x);
            }
        }
        assert(self@ =~= old(self)@.insert(n));
    }

    /// Removes `name` from the awaited joins; says whether it was there.
    pub fn take_pending(&mut self, name: &String) -> (r: bool)
        requires
            old(self).wf(),
        ensures
            final(self).wf(),
            r == old(self)@.contains(name@),
            final(self)@ == old(self)@.remove(name@),
    {
        let mut i: usize = 0;
        while i < self.pending.len()
            invariant
                i <= self.pending@.len(),
                self == old(self),
                old(self).wf(),
                forall|j: int| 0 <= j < i ==> self.pending@[j]@ != name@,
            decreases self.pending@.len() - i,
        {
            if self.pending[i] == *name {
                let ghost before = self.pending@;
                self.pending.remove(i);
                assert(old(self)@.contains(name@)) by {
                    assert(before[i as int]@ == name@);
                }
                assert forall|a: int, b: int|
                    0 <= a < b < self.pending@.len() implies self.pending@[a]@
                    != self.pending@[b]@ by {
                    let a0 = if a < i { a } else { a + 1 };
                    let b0 = if b < i { b } else { b + 1 };
                    assert(self.pending@[a] == before[a0]);
                    assert(self.pending@[b] == before[b0]);
                    assert(a0 < b0);
                    assert(before[a0]@ != before[b0]@);
                }
                assert forall|x: Seq<char>| #[trigger] self@.contains(x) <==> old(self)@.remove(
                    name@,
                ).contains(x) by {
                    if self@.contains(x) {
                        let k = choose|k: int| 0 <= k < self.pending@.len() && self.pending@[k]@ == x;
                        let k0 = if k < i { k } else { k + 1 };
                        assert(self.pending@[k] == before[k0]);
                        assert(before[k0]@ == x);
                        if k0 < i {
                            assert(before[k0]@ != before[i as int]@);
                        } else {
                            assert(before[i as int]@ != before[k0]@);
                        }
                    }
                    if old(self)@.remove(name@).contains(x) {
                        let k = choose|k: int| 0 <= k < before.len() && before[k]@ == x;
                        assert(k != i);
                        let k1 = if k < i { k } else { k - 1 };
                        assert(self.pending@[k1] == before[k]);
                    }
                }
                assert(self@ =~= old(self)@.remove(name@));
                return true;
            }
            i = i + 1;
        }
        assert(!old(self)@.contains(name@)) by {
            if old(self)@.contains(name@) {
                let k = choose|k: int| 0 <= k < self.pending@.len() && self.pending@[k]@ == name@;
                assert(self.pending@[k]@ != name@);
            }
        }
        assert(self@ =~= old(self)@.remove(name@));
        false
    }

    /// Handles one request from the chat bus. A room join is recorded as
    /// awaited and becomes a JOIN command; sending a message is not handled
    /// yet and gives nothing.
    pub fn handle_request(&mut self, req: Request) -> (r: Option<IrcMessage>)
        requires
            old(self).wf(),
        ensures
            final(self).wf(),
            match req.body {
                RequestBody::RoomJoin(id) => final(self)@ == old(self)@.insert(id.0@) && r == Some(
                    join_message(id.0),
                ),
                RequestBody::MessageSend(_) => final(self)@ == old(self)@ && r is None,
            },
    {
        match req.body {
            RequestBody::RoomJoin(id) => {
                let channel = id.0;
                self.add_pending(channel.clone());
                Some(IrcMessage { tags: None, prefix: None, command: Command::JOIN(channel, None, None) })
            },
            RequestBody::MessageSend(_) => None,
        }
    }

    /// Handles one decoded IRC message, given a fresh message id and the
    /// current time. A PRIVMSG becomes a message update (an error when it has
    /// no sender); a topic reply for an awaited channel confirms the join and
    /// becomes a room update; anything else gives nothing.
    pub fn handle_message(&mut self, msg: IrcMessage, id: MessageID, now: Timestamp) -> (r: Result<
        Option<Update>,
        TranslateError,
    >)
        requires
            old(self).wf(),
        ensures
            final(self).wf(),
            message_outcome(old(self)@, final(self)@, msg, id, now, r),
    {
        let ghost m = msg;
        match msg.command {
            Command::PRIVMSG(target, content) => match msg.prefix {
                Some(sender) => {
                    let recipient = recipient_for(target);
                    let attachments: Vec<String> = Vec::new();
                    Ok(
                        Some(
                            Update::MessageUpsert(
                                Message {
                                    id,
                                    sender: UserID(sender),
                                    recipient,
                                    content: MessageContent::Text(content),
                                    create_time: now,
                                    edit_time: now,
                                    attachments,
                                },
                            ),
                        ),
                    )
                },
                None => Err(TranslateError::MissingSender),
            },
            Command::Response(code, mut args, trailing) => {
                if code != RPL_TOPIC {
                    return Ok(None);
                }
                let channel = if args.len() > 0 {
                    args.remove(0)
                } else {
                    match trailing {
                        Some(t) => t,
                        None => {
                            return Ok(None);
                        },
                    }
                };
                assert(topic_channel(m) == Some(channel));
                if self.take_pending(&channel) {
                    let name = channel.clone();
                    Ok(
                        Some(
                            Update::RoomUpsert(
                                Room { id: RoomID(channel), name, parent: None, sendable: true },
                            ),
                        ),
                    )
                } else {
                    assert(self@ =~= old(self)@);
                    Ok(None)
                }
            },
            _ => Ok(None),
        }
    }

    /// Handles one decoded IRC message as `handle_message` does, with a fresh
    /// random message id and the current time.
    pub fn translate(&mut self, msg: IrcMessage) -> (r: Result<Option<Update>, TranslateError>)
        requires
            old(self).wf(),
        ensures
            final(self).wf(),
            exists|id: MessageID, now: Timestamp|
                message_outcome(old(self)@, final(self)@, msg, id, now, r),
    {
        let id = new_message_id();
        let t = now();
        let ghost g = (id, t);
        let r = self.handle_message(msg, id, t);
        assert(message_outcome(old(self)@, self@, msg, g.0, g.1, r));
        r
    }
}

} // verus!

verus! {

/// A topic reply for a channel whose join was requested confirms it once:
/// the first reply gives the room and clears the wait, and a second reply
/// for the same channel gives nothing.
pub proof fn lemma_join_confirmed_once(
    s0: Set<Seq<char>>,
    channel: String,
    reply: IrcMessage,
    second: IrcMessage,
    s2: Set<Seq<char>>,
    s3: Set<Seq<char>>,
    id: MessageID,
    now: Timestamp,
    r1: Result<Option<Update>, TranslateError>,
    r2: Result<Option<Update>, TranslateError>,
)
    requires
        topic_channel(reply) == Some(channel),
        topic_channel(second) == Some(channel),
        message_outcome(s0.insert(channel@), s2, reply, id, now, r1),
        message_outcome(s2, s3, second, id, now, r2),
    ensures
        r1 == Ok::<Option<Update>, TranslateError>(Some(Update::RoomUpsert(joined_room(channel)))),
        !s2.contains(channel@),
        r2 == Ok::<Option<Update>, TranslateError>(None),
{
}

/// A topic reply for a channel whose join was not requested gives nothing
/// and leaves the awaited joins as they were.
pub proof fn lemma_unrequested_topic_ignored(
    s0: Set<Seq<char>>,
    s1: Set<Seq<char>>,
    channel: String,
    reply: IrcMessage,
    id: MessageID,
    now: Timestamp,
    r: Result<Option<Update>, TranslateError>,
)
    requires
        topic_channel(reply) == Some(channel),
        !s0.contains(channel@),
        message_outcome(s0, s1, reply, id, now, r),
    ensures
        r == Ok::<Option<Update>, TranslateError>(None),
        s1 == s0,
{
}

/// Joins of two different channels that are both awaited are confirmed
/// independently, whichever reply comes first: each reply gives its own room.
pub proof fn lemma_joins_independent(
    s0: Set<Seq<char>>,
    a: String,
    b: String,
    reply_b: IrcMessage,
    reply_a: IrcMessage,
    s2: Set<Seq<char>>,
    s3: Set<Seq<char>>,
    id: MessageID,
    now: Timestamp,
    rb: Result<Option<Update>, TranslateError>,
    ra: Result<Option<Update>, TranslateError>,
)
    requires
        a@ != b@,
        topic_channel(reply_b) == Some(b),
        topic_channel(reply_a) == Some(a),
        message_outcome(s0.insert(a@).insert(b@), s2, reply_b, id, now, rb),
        message_outcome(s2, s3, reply_a, id, now, ra),
    ensures
        rb == Ok::<Option<Update>, TranslateError>(Some(Update::RoomUpsert(joined_room(b)))),
        ra == Ok::<Option<Update>, TranslateError>(Some(Update::RoomUpsert(joined_room(a)))),
        !s3.contains(a@) && !s3.contains(b@),
{
    assert(s2.contains(a@));
}

} // verus!
