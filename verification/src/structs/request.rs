//! A request as the server keeps it: the command and two header lines.

use crate::structs::command::{Command, CommandView};
use vstd::prelude::*;

verus! {

/// What a `Request` holds.
pub struct RequestView {
    pub command: CommandView,
    pub host: Seq<char>,
    pub user_agent: Seq<char>,
}

/// The host line of a request that sent none.
pub open spec fn no_host() -> Seq<char> {
    "Host: "@
}

/// The user-agent line of a request that sent none.
pub open spec fn no_user_agent() -> Seq<char> {
    "User-Agent: "@
}

/// A request: its command, and its `Host:` and `User-Agent:` lines as they
/// were sent, or their bare names where the client sent none.
#[derive(Debug)]
pub struct Request {
    command: Command,
    host: String,
    user_agent: String,
}

impl View for Request {
    type V = RequestView;

    closed spec fn view(&self) -> RequestView {
        RequestView { command: self.command@, host: self.host@, user_agent: self.user_agent@ }
    }
}

impl Clone for Request {
    fn clone(&self) -> (copy: Self)
        ensures
            copy@ == self@,
    {
        Request {
            command: self.command.clone(),
            host: self.host.clone(),
            user_agent: self.user_agent.clone(),
        }
    }
}

impl Request {
    /// The request `GET /` with neither header sent.
    pub fn new() -> (request: Request)
        ensures
            request@ == (RequestView {
                command: CommandView { method: "GET"@, path: "/"@ },
                host: no_host(),
                user_agent: no_user_agent(),
            }),
    {
        Request {
            command: Command::adhoc(),
            host: "Host: ".to_string(),
            user_agent: "User-Agent: ".to_string(),
        }
    }

    /// The command of the request.
    pub fn get_command(self) -> (command: Command)
        ensures
            command@ == self@.command,
    {
        self.command
    }

    /// The `Host:` line.
    pub fn get_host(self) -> (host: String)
        ensures
            host@ == self@.host,
    {
        self.host
    }

    /// The `User-Agent:` line.
    pub fn get_user_agent(self) -> (user_agent: String)
        ensures
            user_agent@ == self@.user_agent,
    {
        self.user_agent
    }

    /// Replaces the command.
    pub fn set_command(&mut self, command: Command)
        ensures
            final(self)@ == (RequestView { command: command@, ..old(self)@ }),
    {
        self.command = command;
    }

    /// Replaces the `Host:` line.
    pub fn set_host(&mut self, host: String)
        ensures
            final(self)@ == (RequestView { host: host@, ..old(self)@ }),
    {
        self.host = host;
    }

    /// Replaces the `User-Agent:` line.
    pub fn set_user_agent(&mut self, user_agent: String)
        ensures
            final(self)@ == (RequestView { user_agent: user_agent@, ..old(self)@ }),
    {
        self.user_agent = user_agent;
    }
}

} // verus!
