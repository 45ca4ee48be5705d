//! The decisions of an IRC protocol client: registration, the outbound
//! queue, and the keepalive that answers every PING with a PONG without
//! showing the PING to the consumer. The transport and the task that drains
//! the queue into it are run by the caller.
use vstd::prelude::*;
use crate::message::{Command, IrcError, Message};

verus! {

/// Configuration for the IRC client.
#[derive(Debug, Clone, PartialEq, Eq)]
pub struct Config {
    /// The hostname to connect to.
    pub host: String,
    /// The port of the IRC server.
    pub port: u16,
    /// Whether to wrap the connection in TLS.
    pub ssl: bool,
    /// The nick to connect with.
    pub nick: String,
}

/// An error that could arise from running the client.
#[derive(Debug, Clone, PartialEq, Eq)]
pub enum ClientError {
    /// The line codec or the message parser failed; the stream ends.
    Proto(IrcError),
    /// The outbound queue was already closed: its writer has ended.
    Send,
}

/// A message with no tags and no prefix.
pub open spec fn bare(command: Command) -> Message {
    Message { tags: None, prefix: None, command }
}

/// The reply to a PING that carries `token`.
pub open spec fn pong_for(token: String) -> Message {
    bare(Command::PONG(token, None))
}

/// An IRC client: its configuration and its queue of messages to send.
pub struct Client {
    config: Config,
    outbound: Vec<Message>,
    open: bool,
}

impl Client {
    /// The configuration the client was made with.
    pub closed spec fn spec_config(&self) -> Config {
        self.config
    }

    /// The configuration the client was made with.
    pub fn config(&self) -> (r: &Config)
        ensures
            *r == self.spec_config(),
    {
        &self.config
    }

    /// The messages queued for sending, oldest first.
    pub closed spec fn queue(&self) -> Seq<Message> {
        self.outbound@
    }

    /// Whether the queue still takes messages.
    pub closed spec fn is_open(&self) -> bool {
        self.open
    }

    /// A client for `config`, with an empty, open queue.
    pub fn with_config(config: Config) -> (r: Client)
        ensures
            r.spec_config() == config,
            r.queue() == Seq::<Message>::empty(),
            r.is_open(),
    {
        Client { config, outbound: Vec::new(), open: true }
    }

    /// Queues `message` for sending; fails when the queue is closed.
    pub fn send(&mut self, message: Message) -> (r: Result<(), ClientError>)
        ensures
            final(self).spec_config() == old(self).spec_config(),
            final(self).is_open() == old(self).is_open(),
            old(self).is_open() ==> r is Ok && final(self).queue() == old(self).queue().push(
                message,
            ),
            !old(self).is_open() ==> r == Err::<(), ClientError>(ClientError::Send)
                && final(self).queue() == old(self).queue(),
    {
        if !self.open {
            return Err(ClientError::Send);
        }
        self.outbound.push(message);
        Ok(())
    }

    /// Queues the registration: NICK with the configured nick, then USER
    /// with the nick in each of its fields.
    pub fn register(&mut self) -> (r: Result<(), ClientError>)
        ensures
            final(self).spec_config() == old(self).spec_config(),
            final(self).is_open() == old(self).is_open(),
            old(self).is_open() ==> r is Ok && final(self).queue() == old(self).queue().push(
                bare(Command::NICK(old(self).spec_config().nick)),
            ).push(
                bare(
                    Command::USER(
                        old(self).spec_config().nick,
                        old(self).spec_config().nick,
                        old(self).spec_config().nick,
                    ),
                ),
            ),
            !old(self).is_open() ==> r == Err::<(), ClientError>(ClientError::Send)
                && final(self).queue() == old(self).queue(),
    {
        let nick = self.config.nick.clone();
        self.send(Message { tags: None, prefix: None, command: Command::NICK(nick) })?;
        let n1 = self.config.nick.clone();
        let n2 = self.config.nick.clone();
        let n3 = self.config.nick.clone();
        self.send(Message { tags: None, prefix: None, command: Command::USER(n1, n2, n3) })
    }

    /// Handles one decoded inbound message. A PING is answered by queueing
    /// a PONG with its token and is not handed on; any other message is
    /// handed on unchanged. Answering fails when the queue is closed.
    pub fn receive(&mut self, message: Message) -> (r: Result<Option<Message>, ClientError>)
        ensures
            final(self).spec_config() == old(self).spec_config(),
            final(self).is_open() == old(self).is_open(),
            match message.command {
                Command::PING(token, _) => if old(self).is_open() {
                    r == Ok::<Option<Message>, ClientError>(None) && final(self).queue() == old(
                        self,
                    ).queue().push(pong_for(token))
                } else {
                    r == Err::<Option<Message>, ClientError>(ClientError::Send)
                        && final(self).queue() == old(self).queue()
                },
                _ => r == Ok::<Option<Message>, ClientError>(Some(message)) && final(self).queue()
                    == old(self).queue(),
            },
    {
        match message.command {
            Command::PING(token, _) => {
                let pong = Message { tags: None, prefix: None, command: Command::PONG(token, None) };
                match self.send(pong) {
                    Ok(()) => Ok(None),
                    Err(e) => Err(e),
                }
            },
            _ => Ok(Some(message)),
        }
    }

    /// Takes every queued message out of the queue, oldest first, for the
    /// writer to send.
    pub fn take_outbound(&mut self) -> (r: Vec<Message>)
        ensures
            final(self).spec_config() == old(self).spec_config(),
            final(self).is_open() == old(self).is_open(),
            r@ == old(self).queue(),
            final(self).queue() == Seq::<Message>::empty(),
    {
        let mut out: Vec<Message> = Vec::new();
        std::mem::swap(&mut out, &mut self.outbound);
        out
    }

    /// Closes the queue: the writer has ended, and later sends fail.
    pub fn close(&mut self)
        ensures
            final(self).spec_config() == old(self).spec_config(),
            !final(self).is_open(),
            final(self).queue() == old(self).queue(),
    {
        self.open = false;
    }
}

} // verus!
