//! The configuration section of one IRC bridge child.
use vstd::prelude::*;
use crate::client::Config as IrcConfig;

verus! {

/// What a bridge child reads from its section of the shared configuration.
#[derive(Debug, Clone, PartialEq, Eq)]
pub struct Config {
    pub host: String,
    pub nick: String,
    pub port: u16,
    pub ssl: bool,
}

impl Config {
    /// The IRC client configuration with the same host, nick, port and TLS choice.
    pub fn irc_config(&self) -> (r: IrcConfig)
        ensures
            r == (IrcConfig {
                host: self.host,
                port: self.port,
                ssl: self.ssl,
                nick: self.nick,
            }),
    {
        IrcConfig {
            host: self.host.clone(),
            nick: self.nick.clone(),
            port: self.port,
            ssl: self.ssl,
        }
    }
}

impl<'a> From<&'a Config> for IrcConfig {
    fn from(config: &'a Config) -> IrcConfig {
        config.irc_config()
    }
}

impl<'a> vstd::std_specs::convert::FromSpecImpl<&'a Config> for IrcConfig {
    open spec fn obeys_from_spec() -> bool {
        true
    }

    open spec fn from_spec(config: &'a Config) -> IrcConfig {
        IrcConfig { host: config.host, port: config.port, ssl: config.ssl, nick: config.nick }
    }
}

} // verus!
