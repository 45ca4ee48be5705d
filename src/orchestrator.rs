//! The bookkeeping of the process orchestrator: the configuration of its
//! children, the arguments each child is started with, and the handshake
//! that registers a child only when its first frame describes it.
use vstd::prelude::*;
use crate::chat::InitInfo;

verus! {

/// Where the executable of one bridge child lives.
#[derive(Debug, Clone, PartialEq, Eq)]
pub struct BackendConfig {
    pub path: String,
}

/// The orchestrator's configuration: the address it listens on and its
/// children, by name.
#[derive(Debug, Clone, PartialEq, Eq)]
pub struct Config {
    pub bind_host: String,
    pub bind_port: u16,
    pub backends: Vec<(String, BackendConfig)>,
}

/// The arguments a child is started with: the shared configuration file and
/// the child's own name, which picks its section of that file.
pub fn child_args(config_path: &String, name: &String) -> (r: Vec<String>)
    ensures
        r@.len() == 4,
        r@[0]@ == "--config"@,
        r@[1] == *config_path,
        r@[2]@ == "--backend-name"@,
        r@[3] == *name,
{
    let mut r: Vec<String> = Vec::new();
    r.push("--config".to_string());
    r.push(config_path.clone());
    r.push("--backend-name".to_string());
    r.push(name.clone());
    r
}

/// A child that completed its handshake.
#[derive(Debug, Clone, PartialEq, Eq)]
pub struct Session {
    pub name: String,
    pub init: InitInfo,
}

/// The registry of children that completed their handshake.
pub struct Server {
    sessions: Vec<Session>,
}

impl View for Server {
    type V = Seq<Session>;

    closed spec fn view(&self) -> Seq<Session> {
        self.sessions@
    }
}

impl Server {
    /// A registry with no session.
    pub fn new() -> (r: Server)
        ensures
            r@ == Seq::<Session>::empty(),
    {
        Server { sessions: Vec::new() }
    }

    /// Ends the handshake of child `name`, given its first frame read as an
    /// `InitInfo` (`None` when there was no frame or it was not one). A child
    /// that described itself is registered; any other is left out, and the
    /// registry goes on unchanged.
    pub fn accept_handshake(&mut self, name: String, first: Option<InitInfo>) -> (r: bool)
        ensures
            r == first is Some,
            match first {
                Some(init) => final(self)@ == old(self)@.push(Session { name, init }),
                None => final(self)@ == old(self)@,
            },
    {
        match first {
            Some(init) => {
                self.sessions.push(Session { name, init });
                true
            },
            None => false,
        }
    }

    /// The registered sessions, in the order their handshakes ended.
    pub fn sessions(&self) -> (r: &Vec<Session>)
        ensures
            r@ == self@,
    {
        &self.sessions
    }
}

} // verus!
