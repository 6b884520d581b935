//! The answer to a request: four header lines and a body.

use crate::structs::file::{File, FileView};
use crate::text::{decimal, decimal_string};
use vstd::prelude::*;
use vstd::string::*;
use vstd::utf8::encode_utf8;

verus! {

/// The status line for a status phrase such as `200 OK`.
pub open spec fn status_line(status: Seq<char>) -> Seq<char> {
    "HTTP/1.0 "@ + status
}

/// The line that names this server.
pub open spec fn server_line() -> Seq<char> {
    "Server: GotRusty/0.1"@
}

/// The header line for a content type.
pub open spec fn content_type_line(mime_type: Seq<char>) -> Seq<char> {
    "Content-Type: "@ + mime_type
}

/// The header line for a body of `len` bytes: the length in decimal.
pub open spec fn content_length_line(len: nat) -> Seq<char> {
    "Content-Length: "@ + decimal(len)
}

/// What a `Response` holds.
pub struct ResponseView {
    pub status: Seq<char>,
    pub server: Seq<char>,
    pub content_type: Seq<char>,
    pub content_length: Seq<char>,
    pub content: Seq<u8>,
}

impl ResponseView {
    /// The answer to give with status phrase `status` and `file` as body.
    pub open spec fn build(status: Seq<char>, file: FileView) -> ResponseView {
        ResponseView {
            status: status_line(status),
            server: server_line(),
            content_type: content_type_line(file.mime_type),
            content_length: content_length_line(file.content.len()),
            content: file.content,
        }
    }

    /// The length line is the one that belongs to the body.
    pub open spec fn length_matches(self) -> bool {
        self.content_length == content_length_line(self.content.len())
    }

    /// The six chunks in which a response is handed out: the four header
    /// lines, an empty line, and the body.
    pub open spec fn chunks(self) -> Seq<Seq<u8>> {
        seq![
            encode_utf8(self.status),
            encode_utf8(self.server),
            encode_utf8(self.content_type),
            encode_utf8(self.content_length),
            Seq::empty(),
            self.content,
        ]
    }
}

/// A response to a client. Its length line always belongs to its body: no
/// operation can make the two differ.
#[derive(Debug)]
pub struct Response {
    status: String,
    server: String,
    content_type: String,
    content_length: String,
    content: Vec<u8>,
}

impl View for Response {
    type V = ResponseView;

    closed spec fn view(&self) -> ResponseView {
        ResponseView {
            status: self.status@,
            server: self.server@,
            content_type: self.content_type@,
            content_length: self.content_length@,
            content: self.content@,
        }
    }
}

/// The header line for a body of `len` bytes.
fn length_line(len: usize) -> (line: String)
    ensures
        line@ == content_length_line(len as nat),
{
    let number = decimal_string(len);
    "Content-Length: ".to_string().concat(number.as_str())
}

impl Response {
    #[verifier::type_invariant]
    spec fn length_is_derived(self) -> bool {
        self.content_length@ == content_length_line(self.content@.len())
    }

    /// The response with status phrase `r_status` that carries `r_file`: the
    /// file's type in the content-type line, the number of its bytes in the
    /// length line, and its bytes as the body.
    pub fn new(r_status: &str, r_file: File) -> (response: Response)
        ensures
            response@ == ResponseView::build(r_status@, r_file@),
    {
        let content_type = "Content-Type: ".to_string().concat(
            r_file.clone().get_mime_type().as_str(),
        );
        let content = r_file.get_content();
        Response {
            status: "HTTP/1.0 ".to_string().concat(r_status),
            server: "Server: GotRusty/0.1".to_string(),
            content_type,
            content_length: length_line(content.len()),
            content,
        }
    }

    /// The response as six chunks of bytes, in the order in which they are
    /// sent: status line, server line, content-type line, length line, an
    /// empty chunk, and the body.
    pub fn iter(self) -> (chunks: [Vec<u8>; 6])
        ensures
            self@.length_matches(),
            forall|i: int| 0 <= i < 6 ==> (#[trigger] chunks@[i])@ == self@.chunks()[i],
    {
        proof {
            use_type_invariant(&self);
        }
        [
            self.status.as_str().as_bytes_vec(),
            self.server.as_str().as_bytes_vec(),
            self.content_type.as_str().as_bytes_vec(),
            self.content_length.as_str().as_bytes_vec(),
            Vec::new(),
            self.content,
        ]
    }

    /// The answer to a request that could not be understood: status
    /// `400 Bad Request`, with the bytes of the error page as body.
    pub fn bad_request(page: Vec<u8>) -> (response: Response)
        ensures
            response@ == ResponseView::build("400 Bad Request"@, File::error_page(page@)),
    {
        Response::new("400 Bad Request", File::bad_request(page))
    }

    /// The answer to a request for something that is not there: status
    /// `404 Not Found`, with the bytes of the error page as body.
    pub fn not_found(page: Vec<u8>) -> (response: Response)
        ensures
            response@ == ResponseView::build("404 Not Found"@, File::error_page(page@)),
    {
        Response::new("404 Not Found", File::not_found(page))
    }

    /// The status line.
    pub fn get_status(self) -> (status: String)
        ensures
            status@ == self@.status,
    {
        self.status
    }

    /// The line that names the server.
    pub fn get_server(self) -> (server: String)
        ensures
            server@ == self@.server,
    {
        self.server
    }

    /// The content-type line.
    pub fn get_content_type(self) -> (content_type: String)
        ensures
            content_type@ == self@.content_type,
    {
        self.content_type
    }

    /// The length line, which is the one that belongs to the body.
    pub fn get_content_length(self) -> (content_length: String)
        ensures
            content_length@ == self@.content_length,
            content_length@ == content_length_line(self@.content.len()),
    {
        proof {
            use_type_invariant(&self);
        }
        self.content_length
    }

    /// The body.
    pub fn get_content(self) -> (content: Vec<u8>)
        ensures
            content@ == self@.content,
    {
        self.content
    }

    /// Replaces the status line, taken as it is given.
    pub fn set_status(&mut self, status: String)
        ensures
            final(self)@ == (ResponseView { status: status@, ..old(self)@ }),
    {
        proof {
            use_type_invariant(&*self);
        }
        self.status = status;
    }

    /// Replaces the content-type line, taken as it is given.
    pub fn set_content_type(&mut self, content_type: String)
        ensures
            final(self)@ == (ResponseView { content_type: content_type@, ..old(self)@ }),
    {
        proof {
            use_type_invariant(&*self);
        }
        self.content_type = content_type;
    }

    /// Derives the length line anew from the body. The line already belongs
    /// to the body, so the response is left as it was.
    pub fn set_content_length(&mut self)
        ensures
            final(self)@ == old(self)@,
            final(self)@.length_matches(),
    {
        proof {
            use_type_invariant(&*self);
        }
        self.content_length = length_line(self.content.len());
    }

    /// Replaces the body, and with it the length line.
    pub fn set_content(&mut self, content: Vec<u8>)
        ensures
            final(self)@ == (ResponseView {
                content_length: content_length_line(content@.len()),
                content: content@,
                ..old(self)@
            }),
    {
        *self = Response {
            status: self.status.clone(),
            server: self.server.clone(),
            content_type: self.content_type.clone(),
            content_length: length_line(content.len()),
            content,
        };
    }
}

} // verus!
