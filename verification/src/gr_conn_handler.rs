//! One exchange with a client: read the request, find the file, answer.
//!
//! The library does no reading or writing of its own. `handler` is told what
//! has been read and found so far, and says what has to be done next, until
//! the answer can be sent.
//!
//! An exchange passes through these stages, and never back:
//!
//! - receiving: the request is not settled, and `handler` asks to `Read`;
//! - parsed: the request was read, and `handler` asks to `Probe` the place of
//!   the requested path, then its index page if a directory stands there;
//! - rejected or not found: the request is bad, or no file answers it, and
//!   `handler` asks to `Probe` the error page that is due;
//! - resolved or responding: the file or the error page is at hand, and
//!   `handler` hands out the bytes to `Send`;
//! - closed: after `Send`, or after `Abort` where the error page is missing.

use crate::gr_file_handler::{
    absolute_path, final_segment, get_file, index_of, lemma_directory_fallback, lemma_index_path,
    lemma_probes_end, next_probe, resolve, unseen, Disk, Entry, EntryView,
};
use crate::structs::command::{command_of, Command};
use crate::structs::error::Error;
use crate::structs::file::{mime_of, File, FileView};
use crate::structs::request::{no_host, no_user_agent, Request, RequestView};
use crate::structs::response::{Response, ResponseView};
use crate::structs::server::{Server, ServerView};
use crate::text::{has_prefix, has_substring, starts_with};
use vstd::prelude::*;
use vstd::string::*;
use vstd::utf8::encode_utf8;

verus! {

/// The byte that ends a line.
pub const LINE_FEED: u8 = 10;

/// What has to be done next for a connection.
#[derive(Debug)]
pub enum Action {
    /// Read one more line of the request, or note that the stream has ended.
    Read,
    /// Look at this path on disk and record what stands there.
    Probe(String),
    /// Write these bytes to the client and close the connection.
    Send(Vec<u8>),
    /// Give the connection up: the error page that is due cannot be read.
    Abort,
}

/// What an `Action` holds.
pub enum ActionView {
    Read,
    Probe(Seq<char>),
    Send(Seq<u8>),
    Abort,
}

impl View for Action {
    type V = ActionView;

    open spec fn view(&self) -> ActionView {
        match self {
            Action::Read => ActionView::Read,
            Action::Probe(path) => ActionView::Probe(path@),
            Action::Send(bytes) => ActionView::Send(bytes@),
            Action::Abort => ActionView::Abort,
        }
    }
}

/// The lines of a request as texts.
pub open spec fn texts(lines: Seq<String>) -> Seq<Seq<char>> {
    Seq::new(lines.len(), |i: int| lines[i]@)
}

/// The number of lines that stand before the first empty line.
pub open spec fn head_len(lines: Seq<Seq<char>>) -> nat
    decreases lines.len(),
{
    if lines.len() == 0 || lines[0].len() == 0 {
        0
    } else {
        1 + head_len(lines.drop_first())
    }
}

/// The head of a request: its lines up to the first empty one. What follows
/// that line is not part of the request.
pub open spec fn head(lines: Seq<Seq<char>>) -> Seq<Seq<char>> {
    lines.take(head_len(lines) as int)
}

/// The header line of a request whose name is `name`: the last line of the
/// head that begins with it, or `none` if no line does.
pub open spec fn header(head: Seq<Seq<char>>, name: Seq<char>, none: Seq<char>) -> Seq<char>
    decreases head.len(),
{
    if head.len() == 0 {
        none
    } else if has_prefix(head.last(), name) {
        head.last()
    } else {
        header(head.drop_last(), name, none)
    }
}

/// The request that a list of lines holds. Its first line must be a request
/// line; a request without any line, or with another first line, is a bad
/// request. The lines that begin with `Host:` and `User-Agent:` are kept
/// whole; all other lines are passed over.
pub open spec fn request_of(lines: Seq<Seq<char>>) -> Result<RequestView, Error> {
    let head = head(lines);
    if head.len() == 0 {
        Err(Error::BadRequest)
    } else {
        match command_of(head[0]) {
            Err(e) => Err(e),
            Ok(command) => Ok(
                RequestView {
                    command,
                    host: header(head, "Host:"@, no_host()),
                    user_agent: header(head, "User-Agent:"@, no_user_agent()),
                },
            ),
        }
    }
}

/// Whether enough was read to answer: the stream has ended, an empty line
/// was read, or the first line is no request line, so that the request is
/// turned down without reading on.
pub open spec fn settled(lines: Seq<Seq<char>>, ended: bool) -> bool {
    ended || head_len(lines) < lines.len() || (lines.len() > 0 && command_of(lines[0]) is Err)
}

/// The bytes that go to the client: each header line and the empty line
/// followed by a line feed, then the body as it is.
pub open spec fn wire(response: ResponseView) -> Seq<u8> {
    let chunks = response.chunks();
    chunks[0].push(LINE_FEED) + chunks[1].push(LINE_FEED) + chunks[2].push(LINE_FEED)
        + chunks[3].push(LINE_FEED) + chunks[4].push(LINE_FEED) + chunks[5]
}

/// The bytes of the error page at `path`, or what has to be done instead:
/// look at the path if that was not done yet, and give up if no file stands
/// there.
pub open spec fn page_or(disk: Map<Seq<char>, EntryView>, path: Seq<char>) -> Result<
    Seq<u8>,
    ActionView,
> {
    if !disk.contains_key(path) {
        Err(ActionView::Probe(path))
    } else {
        match disk[path] {
            EntryView::Regular(page) => Ok(page),
            _ => Err(ActionView::Abort),
        }
    }
}

/// The next step of an exchange, from the lines read so far, whether the
/// stream has ended, what was found on disk, and the server's settings.
///
/// While the request is not settled, one more line is read. A bad request is
/// answered with status `400 Bad Request` and the page `400.html` of the
/// errors directory. Any other request is resolved to a file below the file
/// root, once the places that the answer depends on have been looked at: a
/// file is sent with status `200 OK`, and where there is none, the answer is
/// `404 Not Found` with the page `404.html`.
pub open spec fn next_action(
    lines: Seq<Seq<char>>,
    ended: bool,
    disk: Map<Seq<char>, EntryView>,
    config: ServerView,
) -> ActionView {
    if !settled(lines, ended) {
        ActionView::Read
    } else {
        match request_of(lines) {
            Err(_) => match page_or(disk, config.errors_root + "/400.html"@) {
                Ok(page) => ActionView::Send(
                    wire(ResponseView::build("400 Bad Request"@, File::error_page(page))),
                ),
                Err(action) => action,
            },
            Ok(request) => match unseen(request.command.path, config.file_root, disk) {
                Some(place) => ActionView::Probe(place),
                None => match resolve(
                    request.command.path,
                    config.file_root,
                    config.mime_default,
                    disk,
                ) {
                    Ok(file) => ActionView::Send(wire(ResponseView::build("200 OK"@, file))),
                    Err(_) => match page_or(disk, config.errors_root + "/404.html"@) {
                        Ok(page) => ActionView::Send(
                            wire(ResponseView::build("404 Not Found"@, File::error_page(page))),
                        ),
                        Err(action) => action,
                    },
                },
            },
        }
    }
}

/// A request whose first line lacks the marker `HTTP/` is turned down at
/// once, whatever follows: the page `400.html` is looked at, and once it was
/// found the answer is `400 Bad Request` with that page as body.
pub proof fn lemma_bad_request(
    lines: Seq<Seq<char>>,
    ended: bool,
    disk: Map<Seq<char>, EntryView>,
    config: ServerView,
)
    requires
        lines.len() > 0,
        !has_substring(lines[0], "HTTP/"@),
    ensures
        ({
            let path = config.errors_root + "/400.html"@;
            &&& !disk.contains_key(path) ==> next_action(lines, ended, disk, config)
                == ActionView::Probe(path)
            &&& disk.contains_key(path) ==> (disk[path] matches EntryView::Regular(page)
                ==> next_action(lines, ended, disk, config) == ActionView::Send(
                wire(ResponseView::build("400 Bad Request"@, File::error_page(page))),
            ))
        }),
{
    lemma_head(lines);
    if head_len(lines) > 0 {
        assert(head(lines)[0] == lines[0]);
    }
}

/// A request for a path at whose place nothing stands is answered with
/// `404 Not Found` and the page `404.html` as body, once that page was found.
pub proof fn lemma_not_found(
    lines: Seq<Seq<char>>,
    ended: bool,
    disk: Map<Seq<char>, EntryView>,
    config: ServerView,
)
    requires
        settled(lines, ended),
        request_of(lines) matches Ok(request) && absolute_path(
            config.file_root,
            request.command.path,
        ) matches Some(place) && disk.contains_key(place) && disk[place] is Absent,
    ensures
        ({
            let path = config.errors_root + "/404.html"@;
            &&& !disk.contains_key(path) ==> next_action(lines, ended, disk, config)
                == ActionView::Probe(path)
            &&& disk.contains_key(path) ==> (disk[path] matches EntryView::Regular(page)
                ==> next_action(lines, ended, disk, config) == ActionView::Send(
                wire(ResponseView::build("404 Not Found"@, File::error_page(page))),
            ))
        }),
{
}

/// A request for a path at whose place a file stands is answered with
/// `200 OK`: the file's bytes are the body, and the content type is the one
/// that goes with the last segment of the place.
pub proof fn lemma_found(
    lines: Seq<Seq<char>>,
    ended: bool,
    disk: Map<Seq<char>, EntryView>,
    config: ServerView,
)
    requires
        settled(lines, ended),
        request_of(lines) matches Ok(request) && absolute_path(
            config.file_root,
            request.command.path,
        ) matches Some(place) && disk.contains_key(place) && disk[place] is Regular,
    ensures
        ({
            let place = absolute_path(config.file_root, request_of(lines)->Ok_0.command.path)->0;
            let file = FileView {
                name: final_segment(place),
                content: disk[place]->Regular_0,
                mime_type: mime_of(final_segment(place), config.mime_default),
            };
            next_action(lines, ended, disk, config) == ActionView::Send(
                wire(ResponseView::build("200 OK"@, file)),
            )
        }),
{
}

/// An exchange only moves forward. A place that is to be looked at was not
/// looked at before, and it is one of four: the place that the requested
/// path stands for, the index page of that place, or one of the two error
/// pages. Once what stands there is recorded, reading is not taken up again
/// and the same place is not asked for again. So every exchange ends, with
/// `Send` or `Abort`, after four looks at the disk at most.
pub proof fn lemma_no_way_back(
    lines: Seq<Seq<char>>,
    ended: bool,
    disk: Map<Seq<char>, EntryView>,
    config: ServerView,
    found: EntryView,
)
    requires
        next_action(lines, ended, disk, config) is Probe,
    ensures
        ({
            let path = next_action(lines, ended, disk, config)->Probe_0;
            let next = next_action(lines, ended, disk.insert(path, found), config);
            &&& !disk.contains_key(path)
            &&& path == config.errors_root + "/400.html"@ || path == config.errors_root
                + "/404.html"@ || (request_of(lines) matches Ok(request) && absolute_path(
                config.file_root,
                request.command.path,
            ) matches Some(place) && (path == place || path == index_of(place)))
            &&& !(next is Read)
            &&& next != ActionView::Probe(path)
        }),
{
    let path = next_action(lines, ended, disk, config)->Probe_0;
    if let Ok(request) = request_of(lines) {
        lemma_probes_end(request.command.path, config.file_root, disk, found, found);
    }
}

/// What two disks hold at `path` is the same: both were looked at there, or
/// neither, and the same was found.
pub open spec fn same_at(
    first: Map<Seq<char>, EntryView>,
    second: Map<Seq<char>, EntryView>,
    path: Seq<char>,
) -> bool {
    first.contains_key(path) == second.contains_key(path) && (first.contains_key(path)
        ==> first[path] == second[path])
}

/// The next step depends on the disk at four places at most: the place that
/// the requested path stands for, the index page of that place, and the two
/// error pages. As long as these hold what they held, the same request gets
/// the same answer, byte for byte.
pub proof fn lemma_same_disk_same_answer(
    lines: Seq<Seq<char>>,
    ended: bool,
    first: Map<Seq<char>, EntryView>,
    second: Map<Seq<char>, EntryView>,
    config: ServerView,
)
    requires
        same_at(first, second, config.errors_root + "/400.html"@),
        same_at(first, second, config.errors_root + "/404.html"@),
        request_of(lines) matches Ok(request) ==> (absolute_path(
            config.file_root,
            request.command.path,
        ) matches Some(place) ==> same_at(first, second, place) && same_at(
            first,
            second,
            index_of(place),
        )),
    ensures
        next_action(lines, ended, first, config) == next_action(lines, ended, second, config),
{
}

/// Directory fallback: with a directory at the place of the requested path,
/// and its `index.html` looked at and no directory itself, a request for
/// the path and a request for the path's `index.html` get the same answer.
pub proof fn lemma_directory_answer(
    by_directory: Seq<Seq<char>>,
    by_page: Seq<Seq<char>>,
    ended: bool,
    disk: Map<Seq<char>, EntryView>,
    config: ServerView,
)
    requires
        settled(by_directory, ended),
        settled(by_page, ended),
        request_of(by_directory) is Ok,
        request_of(by_page) is Ok,
        request_of(by_page)->Ok_0.command.path == request_of(by_directory)->Ok_0.command.path.push(
            '/',
        ) + "index.html"@,
        absolute_path(
            config.file_root,
            request_of(by_directory)->Ok_0.command.path,
        ) matches Some(place) && disk.contains_key(place) && disk[place] is Directory
            && disk.contains_key(index_of(place)) && !(disk[index_of(place)] is Directory),
    ensures
        next_action(by_directory, ended, disk, config) == next_action(by_page, ended, disk, config),
{
    let path = request_of(by_directory)->Ok_0.command.path;
    lemma_index_path(config.file_root, path);
    lemma_directory_fallback(path, config.file_root, config.mime_default, disk);
}

/// A response goes out as its four header lines, an empty line and its body:
/// the bytes sent begin with the status line and end with the body.
pub proof fn lemma_wire_shape(response: ResponseView)
    ensures
        encode_utf8(response.status).push(LINE_FEED).is_prefix_of(wire(response)),
        response.content.is_suffix_of(wire(response)),
        wire(response).len() == encode_utf8(response.status).len() + encode_utf8(
            response.server,
        ).len() + encode_utf8(response.content_type).len() + encode_utf8(
            response.content_length,
        ).len() + response.content.len() + 5,
{
    let chunks = response.chunks();
    let all = wire(response);
    assert(all.subrange(0, chunks[0].len() as int + 1) =~= chunks[0].push(LINE_FEED));
    assert(all.subrange(all.len() - chunks[5].len(), all.len() as int) =~= chunks[5]);
}

/// The head is a stretch of lines at the start of the request, none of them
/// empty, and it ends before the first empty line if there is one.
pub proof fn lemma_head(lines: Seq<Seq<char>>)
    ensures
        head_len(lines) <= lines.len(),
        forall|i: int| 0 <= i < head_len(lines) ==> (#[trigger] lines[i]).len() > 0,
        head_len(lines) < lines.len() ==> lines[head_len(lines) as int].len() == 0,
    decreases lines.len(),
{
    if lines.len() > 0 && lines[0].len() > 0 {
        let rest = lines.drop_first();
        lemma_head(rest);
        assert forall|i: int| 0 <= i < head_len(lines) implies (#[trigger] lines[i]).len()
            > 0 by {
            if i > 0 {
                assert(rest[i - 1] == lines[i]);
            }
        }
        if head_len(lines) < lines.len() {
            assert(rest[head_len(rest) as int] == lines[head_len(lines) as int]);
        }
    }
}

/// The head ends at the first empty line, or with the last line.
pub proof fn lemma_head_len(lines: Seq<Seq<char>>, n: int)
    requires
        0 <= n <= lines.len(),
        forall|i: int| 0 <= i < n ==> (#[trigger] lines[i]).len() > 0,
        n == lines.len() || lines[n].len() == 0,
    ensures
        head_len(lines) == n,
    decreases n,
{
    if n > 0 {
        let rest = lines.drop_first();
        assert(lines[0].len() > 0);
        assert forall|i: int| 0 <= i < n - 1 implies (#[trigger] rest[i]).len() > 0 by {
            assert(rest[i] == lines[i + 1]);
        }
        lemma_head_len(rest, n - 1);
    }
}

/// The number of lines in the head of the request.
fn head_end(lines: &Vec<String>) -> (n: usize)
    ensures
        n == head_len(texts(lines@)),
        n <= lines.len(),
{
    let mut n: usize = 0;
    while n < lines.len() && !lines[n].as_str().is_empty()
        invariant
            n <= lines.len(),
            forall|i: int| 0 <= i < n ==> (#[trigger] texts(lines@)[i]).len() > 0,
        decreases lines.len() - n,
    {
        n += 1;
    }
    proof {
        lemma_head_len(texts(lines@), n as int);
    }
    n
}

/// An outcome of `reader`, with the request taken by its view.
pub open spec fn parsed(result: Result<Request, Error>) -> Result<RequestView, Error> {
    match result {
        Ok(request) => Ok(request@),
        Err(e) => Err(e),
    }
}

/// Reads a request from its lines. Only the lines before the first empty one
/// count. The first of them must be a request line, else the request is a
/// bad request; of the others, the last that begins with `Host:` and the
/// last that begins with `User-Agent:` are kept.
pub fn reader(lines: &Vec<String>) -> (request: Result<Request, Error>)
    ensures
        parsed(request) == request_of(texts(lines@)),
        request matches Err(e) ==> e == Error::BadRequest,
{
    let n = head_end(lines);
    let ghost head = head(texts(lines@));
    if n == 0 {
        return Err(Error::BadRequest);
    }
    proof {
        assert(head[0] == lines@[0]@);
    }
    let command = match Command::new(lines[0].as_str()) {
        Ok(command) => command,
        Err(e) => {
            return Err(e);
        },
    };
    let mut request = Request::new();
    request.set_command(command);
    let mut i: usize = 0;
    while i < n
        invariant
            i <= n <= lines.len(),
            head == texts(lines@).take(n as int),
            request@.command == command@,
            request@.host == header(head.take(i as int), "Host:"@, no_host()),
            request@.user_agent == header(head.take(i as int), "User-Agent:"@, no_user_agent()),
        decreases n - i,
    {
        let line = lines[i].as_str();
        proof {
            assert(head.take(i + 1).drop_last() =~= head.take(i as int));
            assert(head.take(i + 1).last() == line@);
            lemma_one_name(line@);
        }
        if starts_with(line, "Host:") {
            request.set_host(line.to_string());
        } else if starts_with(line, "User-Agent:") {
            request.set_user_agent(line.to_string());
        }
        i += 1;
    }
    proof {
        assert(head.take(n as int) =~= head);
    }
    Ok(request)
}

/// No line begins with both `Host:` and `User-Agent:`.
proof fn lemma_one_name(line: Seq<char>)
    ensures
        !(has_prefix(line, "Host:"@) && has_prefix(line, "User-Agent:"@)),
{
    reveal_strlit("Host:");
    reveal_strlit("User-Agent:");
    if has_prefix(line, "Host:"@) && has_prefix(line, "User-Agent:"@) {
        assert(line.subrange(0, 5)[0] == 'H');
        assert(line.subrange(0, 11)[0] == 'U');
    }
}

/// The bytes that answer the client: the four header lines and an empty
/// line, each ended by a line feed, and then the body with nothing added.
pub fn sender(to_send: Response) -> (bytes: Vec<u8>)
    ensures
        bytes@ == wire(to_send@),
{
    let chunks = to_send.iter();
    let mut bytes: Vec<u8> = Vec::new();
    bytes.extend_from_slice(chunks[0].as_slice());
    bytes.push(LINE_FEED);
    bytes.extend_from_slice(chunks[1].as_slice());
    bytes.push(LINE_FEED);
    bytes.extend_from_slice(chunks[2].as_slice());
    bytes.push(LINE_FEED);
    bytes.extend_from_slice(chunks[3].as_slice());
    bytes.push(LINE_FEED);
    bytes.extend_from_slice(chunks[4].as_slice());
    bytes.push(LINE_FEED);
    bytes.extend_from_slice(chunks[5].as_slice());
    assert(bytes@ =~= wire(to_send@));
    bytes
}

/// The bytes of the error page at `path`, or the action to take instead.
fn error_page(disk: &Disk, path: String) -> (page: Result<Vec<u8>, Action>)
    ensures
        match page {
            Ok(bytes) => page_or(disk@, path@) == Ok::<Seq<u8>, ActionView>(bytes@),
            Err(action) => page_or(disk@, path@) == Err::<Seq<u8>, ActionView>(action@),
        },
{
    match disk.find(path.as_str()) {
        None => Err(Action::Probe(path)),
        Some(Entry::Regular(bytes)) => Ok(bytes.clone()),
        Some(_) => Err(Action::Abort),
    }
}

/// Whether enough was read to answer.
fn is_settled(lines: &Vec<String>, ended: bool) -> (done: bool)
    ensures
        done == settled(texts(lines@), ended),
{
    if ended || head_end(lines) < lines.len() {
        return true;
    }
    if lines.len() == 0 {
        return false;
    }
    assert(texts(lines@)[0] == lines@[0]@);
    Command::new(lines[0].as_str()).is_err()
}

/// Says what has to be done next for a connection, given the lines of the
/// request read so far, whether the stream has ended, what was found on disk
/// so far, and the server's settings.
///
/// The caller carries the action out and asks again: after `Read` with one
/// more line or with `ended` set, after `Probe` with the finding recorded in
/// `disk`. `Send` and `Abort` end the exchange.
pub fn handler(lines: &Vec<String>, ended: bool, disk: &Disk, config: &Server) -> (action: Action)
    ensures
        action@ == next_action(texts(lines@), ended, disk@, config@),
{
    if !is_settled(lines, ended) {
        return Action::Read;
    }
    let request = match reader(lines) {
        Ok(request) => request,
        Err(_) => {
            let path = config.get_errors_root().concat("/400.html");
            return match error_page(disk, path) {
                Ok(page) => Action::Send(sender(Response::bad_request(page))),
                Err(action) => action,
            };
        },
    };
    let path = request.get_command().get_path();
    let file_root = config.get_file_root();
    if let Some(place) = next_probe(path.as_str(), file_root.as_str(), disk) {
        return Action::Probe(place);
    }
    let mime_default = config.get_mime_default();
    match get_file(path.as_str(), file_root.as_str(), mime_default.as_str(), disk) {
        Ok(file) => Action::Send(sender(Response::new("200 OK", file))),
        Err(_) => {
            let path = config.get_errors_root().concat("/404.html");
            match error_page(disk, path) {
                Ok(page) => Action::Send(sender(Response::not_found(page))),
                Err(action) => action,
            }
        },
    }
}

} // verus!
