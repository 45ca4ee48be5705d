//! The chat-bus data model that bridges speak: rooms, users, messages, the
//! updates that a bridge emits and the requests that it receives.
use vstd::prelude::*;

verus! {

#[derive(Debug, Clone, PartialEq, Eq)]
pub struct RoomID(pub String);

#[derive(Debug, Clone, PartialEq, Eq)]
pub struct UserID(pub String);

#[derive(Debug, Clone, PartialEq, Eq)]
pub struct MessageID(pub String);

/// Where a message goes: a room, or one user.
#[derive(Debug, Clone, PartialEq, Eq)]
pub enum RoomIDOrUserID {
    Room(RoomID),
    User(UserID),
}

#[derive(Debug, Clone, PartialEq, Eq)]
pub struct Room {
    pub id: RoomID,
    pub name: String,
    pub parent: Option<RoomID>,
    pub sendable: bool,
}

#[derive(Debug, Clone, PartialEq, Eq)]
pub enum MessageContent {
    Text(String),
}

/// A point in time: whole seconds since the Unix epoch and the nanoseconds
/// past that second.
#[derive(Debug, Clone, Copy, PartialEq, Eq)]
pub struct Timestamp {
    pub secs: i64,
    pub nanos: u32,
}

/// A chat message.
#[derive(Debug, Clone, PartialEq, Eq)]
pub struct Message {
    pub id: MessageID,
    pub sender: UserID,
    pub recipient: RoomIDOrUserID,
    pub content: MessageContent,
    pub create_time: Timestamp,
    pub edit_time: Timestamp,
    pub attachments: Vec<String>,
}

/// An event that a bridge emits.
#[derive(Debug, Clone, PartialEq, Eq)]
pub enum Update {
    RoomUpsert(Room),
    MessageUpsert(Message),
}

/// A message that a client asks a bridge to send.
#[derive(Debug, Clone, PartialEq, Eq)]
pub struct NewMessage {
    pub recipient: RoomIDOrUserID,
    pub content: MessageContent,
}

/// A request to a bridge, numbered by its sender.
#[derive(Debug, Clone, PartialEq, Eq)]
pub struct Request {
    pub sequence_number: u32,
    pub body: RequestBody,
}

#[derive(Debug, Clone, PartialEq, Eq)]
pub enum RequestBody {
    RoomJoin(RoomID),
    MessageSend(NewMessage),
}

/// What a bridge child tells the orchestrator about itself in its first frame.
#[derive(Debug, Clone, PartialEq, Eq)]
pub struct InitInfo {
    pub name: String,
    pub capabilities: Vec<String>,
}

} // verus!
