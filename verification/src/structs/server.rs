//! The server's settings: where it listens and where its files are.

use crate::text::{all_digits, chars_of, number, pieces, split, Span};
use vstd::prelude::*;

verus! {

/// One part of a dotted address: decimal digits, with or without a `+`
/// before them, that spell a number of 254 at most.
pub open spec fn octet(part: Seq<char>) -> Option<u8> {
    let body = if part.len() > 0 && part[0] == '+' {
        part.skip(1)
    } else {
        part
    };
    if body.len() > 0 && all_digits(body) && number(body) <= 254 {
        Some(number(body) as u8)
    } else {
        None
    }
}

/// The four octets that a dotted IPv4 address spells: exactly four parts
/// between its dots, each one an octet.
pub open spec fn address_of(addr: Seq<char>) -> Option<Seq<u8>> {
    let parts = split(addr, '.');
    if parts.len() == 4 && (forall|k: int| 0 <= k < 4 ==> octet(#[trigger] parts[k]) is Some) {
        Some(Seq::new(4, |k: int| octet(parts[k])->0))
    } else {
        None
    }
}

/// The digits read so far never spell more than the whole text does.
proof fn lemma_number_grows(s: Seq<char>, upto: int)
    requires
        0 <= upto <= s.len(),
    ensures
        number(s.take(upto)) <= number(s),
    decreases s.len() - upto,
{
    if upto < s.len() {
        lemma_number_grows(s, upto + 1);
        assert(s.take(upto + 1).drop_last() =~= s.take(upto));
    } else {
        assert(s.take(upto) =~= s);
    }
}

/// The octet that the characters of `span` spell.
fn octet_at(chars: &Vec<char>, span: Span) -> (value: Option<u8>)
    requires
        span.within(chars@.len()),
    ensures
        value == octet(span.of(chars@)),
{
    let ghost part = span.of(chars@);
    let mut i: usize = span.from;
    if i < span.to && chars[i] == '+' {
        i += 1;
    }
    let ghost body = chars@.subrange(i as int, span.to as int);
    proof {
        if i > span.from {
            assert(part[0] == '+');
            assert(body =~= part.skip(1));
        } else {
            if part.len() > 0 {
                assert(part[0] == chars@[span.from as int]);
            }
            assert(body =~= part);
        }
    }
    if i == span.to {
        return None;
    }
    let start: usize = i;
    let mut acc: u32 = 0;
    while i < span.to
        invariant
            start <= i <= span.to,
            span.to <= chars@.len(),
            body == chars@.subrange(start as int, span.to as int),
            part == span.of(chars@),
            body == if part.len() > 0 && part[0] == '+' {
                part.skip(1)
            } else {
                part
            },
            body.len() > 0,
            all_digits(body.take(i - start)),
            acc == number(body.take(i - start)),
            acc <= 254,
        decreases span.to - i,
    {
        let c = chars[i];
        proof {
            assert(body[i - start] == c);
            assert(body.take(i - start + 1).drop_last() =~= body.take(i - start));
            assert(body.take(i - start + 1).last() == c);
        }
        if c < '0' || c > '9' {
            return None;
        }
        let d: u32 = c as u32 - '0' as u32;
        let next: u32 = acc * 10 + d;
        if next > 254 {
            proof {
                lemma_number_grows(body, i - start + 1);
            }
            return None;
        }
        acc = next;
        i += 1;
    }
    proof {
        assert(body.take(i - start) =~= body);
    }
    Some(acc as u8)
}

/// The settings that were gathered from a file and the environment.
#[verifier::external_type_specification]
#[verifier::external_body]
pub struct ExConfig(config::Config);

/// Why no settings could be gathered, or why one of them cannot be had.
#[verifier::external_type_specification]
#[verifier::external_body]
pub struct ExConfigError(config::ConfigError);

/// What `config::Config::get::<String>` answers with: for each key under
/// which it finds a setting that can be had as text, that text.
pub uninterp spec fn text_settings(settings: config::Config) -> Map<Seq<char>, Seq<char>>;

/// What `config::Config::get::<u16>` answers with: for each key under which
/// it finds a setting that can be had as a 16-bit number, that number.
pub uninterp spec fn port_settings(settings: config::Config) -> Map<Seq<char>, u16>;

/// A key made of small letters and underscores only.
pub open spec fn is_key(key: Seq<char>) -> bool {
    forall|i: int| 0 <= i < key.len() ==> 'a' <= #[trigger] key[i] <= 'z' || key[i] == '_'
}

/// What is filed under `key`, if anything is.
pub open spec fn setting<V>(settings: Map<Seq<char>, V>, key: Seq<char>) -> Option<V> {
    if settings.contains_key(key) {
        Some(settings[key])
    } else {
        None
    }
}

/// Calls `config::Config::get::<String>`, which looks `key` up among the
/// gathered settings and converts what it finds to text. The contract
/// claims that the outcome depends on the settings and the key alone: the
/// call succeeds exactly for the keys of `text_settings`, with the text filed
/// there. It is limited to keys without subscripts, for which the lookup is
/// a plain table access.
#[verifier::external_body]
fn text_setting(settings: &config::Config, key: &str) -> (value: Result<
    String,
    config::ConfigError,
>)
    requires
        is_key(key@),
    ensures
        match value {
            Ok(text) => setting(text_settings(*settings), key@) == Some(text@),
            Err(_) => setting(text_settings(*settings), key@) is None,
        },
{
    settings.get::<String>(key)
}

/// Calls `config::Config::get::<u16>`, which looks `key` up among the
/// gathered settings and converts what it finds to a 16-bit number. The
/// contract claims that the outcome depends on the settings and the key
/// alone: the call succeeds exactly for the keys of `port_settings`, with the
/// number filed there. It is limited to keys without subscripts.
#[verifier::external_body]
fn port_setting(settings: &config::Config, key: &str) -> (value: Result<u16, config::ConfigError>)
    requires
        is_key(key@),
    ensures
        match value {
            Ok(port) => setting(port_settings(*settings), key@) == Some(port),
            Err(_) => setting(port_settings(*settings), key@) is None,
        },
{
    settings.get::<u16>(key)
}

/// What a `Server` holds.
pub struct ServerView {
    pub addr: Seq<u8>,
    pub port: u16,
    pub file_root: Seq<char>,
    pub errors_root: Seq<char>,
    pub mime_default: Seq<char>,
}

impl ServerView {
    /// The settings of a server that was given none: it listens on
    /// 127.0.0.1, port 1337, serves the current directory, takes its error
    /// pages from `./error`, and sends unknown extensions as `text/plain`.
    pub open spec fn fallback() -> ServerView {
        ServerView {
            addr: seq![127u8, 0u8, 0u8, 1u8],
            port: 1337,
            file_root: "."@,
            errors_root: "./error"@,
            mime_default: "text/plain"@,
        }
    }

    /// The server that five settings make: all five must be there, and the
    /// address must be a dotted IPv4 address.
    pub open spec fn assemble(
        addr: Option<Seq<char>>,
        port: Option<u16>,
        file_root: Option<Seq<char>>,
        errors_root: Option<Seq<char>>,
        mime_default: Option<Seq<char>>,
    ) -> Option<ServerView> {
        if addr is Some && port is Some && file_root is Some && errors_root is Some
            && mime_default is Some && address_of(addr->0) is Some {
            Some(
                ServerView {
                    addr: address_of(addr->0)->0,
                    port: port->0,
                    file_root: file_root->0,
                    errors_root: errors_root->0,
                    mime_default: mime_default->0,
                },
            )
        } else {
            None
        }
    }
}

/// The settings of the server. They are fixed once they are made.
#[derive(Debug)]
pub struct Server {
    addr: [u8; 4],
    port: u16,
    file_root: String,
    errors_root: String,
    mime_default: String,
}

impl View for Server {
    type V = ServerView;

    closed spec fn view(&self) -> ServerView {
        ServerView {
            addr: self.addr@,
            port: self.port,
            file_root: self.file_root@,
            errors_root: self.errors_root@,
            mime_default: self.mime_default@,
        }
    }
}

impl Clone for Server {
    fn clone(&self) -> (copy: Self)
        ensures
            copy@ == self@,
    {
        Server {
            addr: self.addr,
            port: self.port,
            file_root: self.file_root.clone(),
            errors_root: self.errors_root.clone(),
            mime_default: self.mime_default.clone(),
        }
    }
}

impl Server {
    /// Reads a dotted IPv4 address such as `127.0.0.1`: four parts, each a
    /// decimal number of 254 at most. Any other text is no address.
    pub fn parse_addr(addr: &str) -> (octets: Option<[u8; 4]>)
        ensures
            match octets {
                Some(o) => address_of(addr@) == Some(o@),
                None => address_of(addr@) is None,
            },
    {
        let chars = chars_of(addr);
        let spans = pieces(&chars, '.');
        if spans.len() != 4 {
            return None;
        }
        let ghost parts = split(addr@, '.');
        let a = match octet_at(&chars, spans[0]) {
            Some(a) => a,
            None => {
                assert(octet(parts[0]) is None);
                return None;
            },
        };
        let b = match octet_at(&chars, spans[1]) {
            Some(b) => b,
            None => {
                assert(octet(parts[1]) is None);
                return None;
            },
        };
        let c = match octet_at(&chars, spans[2]) {
            Some(c) => c,
            None => {
                assert(octet(parts[2]) is None);
                return None;
            },
        };
        let d = match octet_at(&chars, spans[3]) {
            Some(d) => d,
            None => {
                assert(octet(parts[3]) is None);
                return None;
            },
        };
        let octets = [a, b, c, d];
        assert(octets@ =~= address_of(addr@)->0);
        Some(octets)
    }

    /// The server that the gathered settings describe. Where none could be
    /// gathered, it is the server of `fallback`. Where some were, the server
    /// takes `addr`, `port`, `file_root`, `errors_root` and `mime_default` from
    /// them; if one of the five is missing or cannot be had in its type, or
    /// `addr` is no dotted IPv4 address, there is no server.
    pub fn read_config(settings: Result<config::Config, config::ConfigError>) -> (server: Option<
        Server,
    >)
        ensures
            match settings {
                Err(_) => server matches Some(s) && s@ == ServerView::fallback(),
                Ok(found) => Server::view_of(server) == ServerView::assemble(
                    setting(text_settings(found), "addr"@),
                    setting(port_settings(found), "port"@),
                    setting(text_settings(found), "file_root"@),
                    setting(text_settings(found), "errors_root"@),
                    setting(text_settings(found), "mime_default"@),
                ),
            },
    {
        let found = match settings {
            Ok(found) => found,
            Err(_) => {
                return Some(Server::fallback());
            },
        };
        proof {
            reveal_strlit("addr");
            reveal_strlit("port");
            reveal_strlit("file_root");
            reveal_strlit("errors_root");
            reveal_strlit("mime_default");
        }
        let addr = match text_setting(&found, "addr") {
            Ok(text) => Some(text),
            Err(_) => None,
        };
        let port = match port_setting(&found, "port") {
            Ok(port) => Some(port),
            Err(_) => None,
        };
        let file_root = match text_setting(&found, "file_root") {
            Ok(text) => Some(text),
            Err(_) => None,
        };
        let errors_root = match text_setting(&found, "errors_root") {
            Ok(text) => Some(text),
            Err(_) => None,
        };
        let mime_default = match text_setting(&found, "mime_default") {
            Ok(text) => Some(text),
            Err(_) => None,
        };
        Server::from_settings(addr, port, file_root, errors_root, mime_default)
    }

    /// The view of a server that may not be there.
    pub open spec fn view_of(server: Option<Server>) -> Option<ServerView> {
        match server {
            Some(s) => Some(s@),
            None => None,
        }
    }

    /// The text that may not be there, as characters.
    pub open spec fn text_of(text: Option<String>) -> Option<Seq<char>> {
        match text {
            Some(t) => Some(t@),
            None => None,
        }
    }

    /// The server that five settings make. All five must be there, and
    /// `addr` must be a dotted IPv4 address; else there is no server.
    pub fn from_settings(
        addr: Option<String>,
        port: Option<u16>,
        file_root: Option<String>,
        errors_root: Option<String>,
        mime_default: Option<String>,
    ) -> (server: Option<Server>)
        ensures
            Server::view_of(server) == ServerView::assemble(
                Server::text_of(addr),
                port,
                Server::text_of(file_root),
                Server::text_of(errors_root),
                Server::text_of(mime_default),
            ),
    {
        match (addr, port, file_root, errors_root, mime_default) {
            (Some(addr), Some(port), Some(file_root), Some(errors_root), Some(mime_default)) => {
                match Server::parse_addr(addr.as_str()) {
                    Some(octets) => Some(
                        Server { addr: octets, port, file_root, errors_root, mime_default },
                    ),
                    None => None,
                }
            },
            _ => None,
        }
    }

    /// The settings of a server that was given none.
    pub fn fallback() -> (server: Server)
        ensures
            server@ == ServerView::fallback(),
    {
        let addr: [u8; 4] = [127, 0, 0, 1];
        assert(addr@ =~= seq![127u8, 0u8, 0u8, 1u8]);
        Server {
            addr,
            port: 1337,
            file_root: ".".to_string(),
            errors_root: "./error".to_string(),
            mime_default: "text/plain".to_string(),
        }
    }

    /// A server that listens on `addr` and `port`, with every other setting
    /// as in `fallback`.
    pub fn new(addr: &str, port: u16) -> (server: Server)
        requires
            address_of(addr@) is Some,
        ensures
            server@ == (ServerView {
                addr: address_of(addr@)->0,
                port,
                ..ServerView::fallback()
            }),
    {
        let octets = match Server::parse_addr(addr) {
            Some(octets) => octets,
            None => [127, 0, 0, 1],
        };
        Server {
            addr: octets,
            port,
            file_root: ".".to_string(),
            errors_root: "./error".to_string(),
            mime_default: "text/plain".to_string(),
        }
    }

    /// The four octets of the address to listen on.
    pub fn get_addr(&self) -> (addr: [u8; 4])
        ensures
            addr@ == self@.addr,
    {
        self.addr
    }

    /// The port to listen on.
    pub fn get_port(&self) -> (port: u16)
        ensures
            port == self@.port,
    {
        self.port
    }

    /// The directory below which requested paths are looked up.
    pub fn get_file_root(&self) -> (file_root: String)
        ensures
            file_root@ == self@.file_root,
    {
        self.file_root.clone()
    }

    /// The directory that holds the error pages.
    pub fn get_errors_root(&self) -> (errors_root: String)
        ensures
            errors_root@ == self@.errors_root,
    {
        self.errors_root.clone()
    }

    /// The content type of files whose extension is not known.
    pub fn get_mime_default(&self) -> (mime_default: String)
        ensures
            mime_default@ == self@.mime_default,
    {
        self.mime_default.clone()
    }
}

} // verus!
