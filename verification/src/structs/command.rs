//! The request line: a method and a path.

use crate::structs::error::Error;
use crate::text::{
    chars_of, contains, has_substring, lemma_split_append, lemma_split_whole, occurs_at, pieces,
    split,
};
use vstd::prelude::*;
use vstd::string::*;

verus! {

/// What a `Command` holds.
pub struct CommandView {
    pub method: Seq<char>,
    pub path: Seq<char>,
}

/// The command that a request line stands for. The line must hold the
/// marker `HTTP/`. Cut at every single space, its first piece is the method
/// and its second the path, which must not be empty. Any other line is a bad
/// request.
pub open spec fn command_of(line: Seq<char>) -> Result<CommandView, Error> {
    let tokens = split(line, ' ');
    if has_substring(line, "HTTP/"@) && tokens.len() >= 2 && tokens[1].len() > 0 {
        Ok(CommandView { method: tokens[0], path: tokens[1] })
    } else {
        Err(Error::BadRequest)
    }
}

/// The first line of a request. Its path is never empty, and its protocol
/// version is always 1.0.
#[derive(Debug)]
pub struct Command {
    method: String,
    path: String,
}

impl View for Command {
    type V = CommandView;

    closed spec fn view(&self) -> CommandView {
        CommandView { method: self.method@, path: self.path@ }
    }
}

impl Clone for Command {
    fn clone(&self) -> (copy: Self)
        ensures
            copy@ == self@,
    {
        proof {
            use_type_invariant(self);
        }
        Command { method: self.method.clone(), path: self.path.clone() }
    }
}

impl Command {
    #[verifier::type_invariant]
    spec fn path_is_not_empty(self) -> bool {
        self.path@.len() > 0
    }

    /// Reads a request line. A line without the marker `HTTP/`, with fewer
    /// than two pieces between its spaces, or with an empty path, is a bad
    /// request; every other line gives its first piece as method and its
    /// second as path.
    pub fn new(line: &str) -> (command: Result<Command, Error>)
        ensures
            match command {
                Ok(c) => command_of(line@) == Ok::<CommandView, Error>(c@),
                Err(e) => command_of(line@) == Err::<CommandView, Error>(e),
            },
    {
        if !contains(line, "HTTP/") {
            return Err(Error::BadRequest);
        }
        let chars = chars_of(line);
        let spans = pieces(&chars, ' ');
        if spans.len() < 2 {
            return Err(Error::BadRequest);
        }
        let first = spans[0];
        let second = spans[1];
        if second.from == second.to {
            return Err(Error::BadRequest);
        }
        let method = line.substring_char(first.from, first.to).to_string();
        let path = line.substring_char(second.from, second.to).to_string();
        Ok(Command { method, path })
    }

    /// The command of the request line `GET / HTTP/1.0`.
    pub fn adhoc() -> (command: Command)
        ensures
            command@ == (CommandView { method: "GET"@, path: "/"@ }),
            command_of("GET / HTTP/1.0"@) == Ok::<CommandView, Error>(command@),
    {
        proof {
            lemma_adhoc_line();
            reveal_strlit("/");
        }
        Command { method: "GET".to_string(), path: "/".to_string() }
    }

    /// The method, as it was written.
    pub fn get_method(self) -> (method: String)
        ensures
            method@ == self@.method,
    {
        self.method
    }

    /// The path, which is not empty.
    pub fn get_path(self) -> (path: String)
        ensures
            path@ == self@.path,
            path@.len() > 0,
    {
        proof {
            use_type_invariant(&self);
        }
        self.path
    }

    /// The protocol version as major and minor number: always 1.0.
    pub fn get_http_version(&self) -> (version: (u8, u8))
        ensures
            version == (1u8, 0u8),
    {
        (1, 0)
    }

    /// Replaces the method.
    pub fn set_method(&mut self, method: String)
        ensures
            final(self)@ == (CommandView { method: method@, ..old(self)@ }),
    {
        proof {
            use_type_invariant(&*self);
        }
        self.method = method;
    }

    /// Replaces the path by another one that is not empty.
    pub fn set_path(&mut self, path: String)
        requires
            path@.len() > 0,
        ensures
            final(self)@ == (CommandView { path: path@, ..old(self)@ }),
    {
        self.path = path;
    }
}

/// The line `GET / HTTP/1.0` reads as method `GET` and path `/`.
pub proof fn lemma_adhoc_line()
    ensures
        command_of("GET / HTTP/1.0"@) == Ok::<CommandView, Error>(
            CommandView { method: "GET"@, path: "/"@ },
        ),
{
    reveal_strlit("GET / HTTP/1.0");
    reveal_strlit("GET");
    reveal_strlit("/");
    reveal_strlit("HTTP/");
    let line = "GET / HTTP/1.0"@;
    let method = seq!['G', 'E', 'T'];
    let path = seq!['/'];
    let version = seq!['H', 'T', 'T', 'P', '/', '1', '.', '0'];
    assert("GET"@ =~= method);
    assert("/"@ =~= path);
    lemma_split_whole(method, ' ');
    lemma_split_append(method, ' ', path);
    lemma_split_append(method.push(' ') + path, ' ', version);
    assert(line =~= (method.push(' ') + path).push(' ') + version);
    assert(line.subrange(6, 11) =~= "HTTP/"@);
    assert(occurs_at(line, "HTTP/"@, 6));
}

} // verus!
