//! A file to be served: its name, its bytes and its content type.

use crate::text::{
    chars_of, lemma_count_contains, lemma_split, lemma_split_append, pieces, same_text, split,
};
use vstd::prelude::*;
use vstd::string::*;

verus! {

/// The content type that the table gives to an extension, if it lists it.
/// The extension is matched as written, upper and lower case apart.
pub open spec fn known_type(ext: Seq<char>) -> Option<Seq<char>> {
    if ext == "html"@ {
        Some("text/html"@)
    } else if ext == "htm"@ {
        Some("text/html"@)
    } else if ext == "xhtml"@ {
        Some("application/xhtml+xml"@)
    } else if ext == "js"@ {
        Some("text/javascript"@)
    } else if ext == "json"@ {
        Some("application/json"@)
    } else if ext == "css"@ {
        Some("text/css"@)
    } else if ext == "xml"@ {
        Some("application/xml"@)
    } else if ext == "txt"@ {
        Some("text/plain"@)
    } else if ext == "log"@ {
        Some("text/plain"@)
    } else if ext == "bmp"@ {
        Some("image/bmp"@)
    } else if ext == "gif"@ {
        Some("image/gif"@)
    } else if ext == "ico"@ {
        Some("image/vnd.microsoft.icon"@)
    } else if ext == "jpg"@ {
        Some("image/jpeg"@)
    } else if ext == "jpeg"@ {
        Some("image/jpeg"@)
    } else if ext == "png"@ {
        Some("image/png"@)
    } else if ext == "svg"@ {
        Some("image/svg+xml"@)
    } else if ext == "tif"@ {
        Some("image/tiff"@)
    } else if ext == "tiff"@ {
        Some("image/tiff"@)
    } else if ext == "webp"@ {
        Some("image/webp"@)
    } else if ext == "otf"@ {
        Some("font/otf"@)
    } else if ext == "ttf"@ {
        Some("font/ttf"@)
    } else if ext == "woff"@ {
        Some("font/woff"@)
    } else if ext == "woff2"@ {
        Some("font/woff2"@)
    } else {
        None
    }
}

/// The extension of a name: what follows its last dot.
pub open spec fn extension(name: Seq<char>) -> Seq<char> {
    split(name, '.').last()
}

/// The content type of a file called `name`, where `fallback` is the type
/// configured for extensions that the table does not list.
pub open spec fn mime_of(name: Seq<char>, fallback: Seq<char>) -> Seq<char> {
    if !name.contains('.') {
        "text/plain"@
    } else {
        match known_type(extension(name)) {
            Some(mime) => mime,
            None => fallback,
        }
    }
}

/// The table's entry for `ext`.
pub fn lookup_type(ext: &str) -> (found: Option<&'static str>)
    ensures
        match found {
            Some(mime) => known_type(ext@) == Some(mime@),
            None => known_type(ext@) is None,
        },
{
    if same_text(ext, "html") {
        Some("text/html")
    } else if same_text(ext, "htm") {
        Some("text/html")
    } else if same_text(ext, "xhtml") {
        Some("application/xhtml+xml")
    } else if same_text(ext, "js") {
        Some("text/javascript")
    } else if same_text(ext, "json") {
        Some("application/json")
    } else if same_text(ext, "css") {
        Some("text/css")
    } else if same_text(ext, "xml") {
        Some("application/xml")
    } else if same_text(ext, "txt") {
        Some("text/plain")
    } else if same_text(ext, "log") {
        Some("text/plain")
    } else if same_text(ext, "bmp") {
        Some("image/bmp")
    } else if same_text(ext, "gif") {
        Some("image/gif")
    } else if same_text(ext, "ico") {
        Some("image/vnd.microsoft.icon")
    } else if same_text(ext, "jpg") {
        Some("image/jpeg")
    } else if same_text(ext, "jpeg") {
        Some("image/jpeg")
    } else if same_text(ext, "png") {
        Some("image/png")
    } else if same_text(ext, "svg") {
        Some("image/svg+xml")
    } else if same_text(ext, "tif") {
        Some("image/tiff")
    } else if same_text(ext, "tiff") {
        Some("image/tiff")
    } else if same_text(ext, "webp") {
        Some("image/webp")
    } else if same_text(ext, "otf") {
        Some("font/otf")
    } else if same_text(ext, "ttf") {
        Some("font/ttf")
    } else if same_text(ext, "woff") {
        Some("font/woff")
    } else if same_text(ext, "woff2") {
        Some("font/woff2")
    } else {
        None
    }
}

/// What a `File` holds.
pub struct FileView {
    pub name: Seq<char>,
    pub content: Seq<u8>,
    pub mime_type: Seq<char>,
}

/// A file as it will be sent: its name, its bytes, and the content type
/// inferred from the name.
#[derive(Debug)]
pub struct File {
    name: String,
    content: Vec<u8>,
    mime_type: String,
}

impl View for File {
    type V = FileView;

    closed spec fn view(&self) -> FileView {
        FileView { name: self.name@, content: self.content@, mime_type: self.mime_type@ }
    }
}

impl Clone for File {
    fn clone(&self) -> (copy: Self)
        ensures
            copy@ == self@,
    {
        File {
            name: self.name.clone(),
            content: self.content.clone(),
            mime_type: self.mime_type.clone(),
        }
    }
}

impl File {
    /// A file called `name` that holds `content`. Its content type follows
    /// from the name, with `mime_default` for an extension that is not known.
    pub fn new(name: String, content: Vec<u8>, mime_default: &str) -> (file: File)
        ensures
            file@ == (FileView {
                name: name@,
                content: content@,
                mime_type: mime_of(name@, mime_default@),
            }),
    {
        let mime_type = File::fetch_mime(name.clone(), mime_default);
        File { name, content, mime_type }
    }

    /// The content type of a file called `name`: `text/plain` for a name
    /// without a dot, else what the table gives for the part behind the last
    /// dot, else `mime_default`.
    pub fn fetch_mime(name: String, mime_default: &str) -> (mime: String)
        ensures
            mime@ == mime_of(name@, mime_default@),
    {
        let chars = chars_of(name.as_str());
        let spans = pieces(&chars, '.');
        proof {
            lemma_split(name@, '.');
            lemma_count_contains(name@, '.');
        }
        if spans.len() == 1 {
            return "text/plain".to_string();
        }
        let last = spans[spans.len() - 1];
        let ext = name.as_str().substring_char(last.from, last.to);
        match lookup_type(ext) {
            Some(mime) => mime.to_string(),
            None => mime_default.to_string(),
        }
    }

    /// An error page as a file: the page's bytes under the name
    /// `error.html`, served as `text/html`.
    pub open spec fn error_page(page: Seq<u8>) -> FileView {
        FileView { name: "error.html"@, content: page, mime_type: "text/html"@ }
    }

    /// The file served in answer to a request that could not be understood:
    /// the bytes of the error page, under the name `error.html`.
    pub fn bad_request(page: Vec<u8>) -> (file: File)
        ensures
            file@ == File::error_page(page@),
    {
        proof {
            lemma_error_page_type();
        }
        File::new("error.html".to_string(), page, "text/plain")
    }

    /// The file served in answer to a request for something that is not
    /// there: the bytes of the error page, under the name `error.html`.
    pub fn not_found(page: Vec<u8>) -> (file: File)
        ensures
            file@ == File::error_page(page@),
    {
        proof {
            lemma_error_page_type();
        }
        File::new("error.html".to_string(), page, "text/plain")
    }

    /// The name of the file.
    pub fn get_name(self) -> (name: String)
        ensures
            name@ == self@.name,
    {
        self.name
    }

    /// The bytes of the file.
    pub fn get_content(self) -> (content: Vec<u8>)
        ensures
            content@ == self@.content,
    {
        self.content
    }

    /// The content type of the file.
    pub fn get_mime_type(self) -> (mime_type: String)
        ensures
            mime_type@ == self@.mime_type,
    {
        self.mime_type
    }
}

/// No extension of the table holds a dot.
pub proof fn lemma_known_extensions_hold_no_dot(ext: Seq<char>)
    ensures
        known_type(ext) is Some ==> !ext.contains('.'),
{
    reveal_strlit("html");
    reveal_strlit("htm");
    reveal_strlit("xhtml");
    reveal_strlit("js");
    reveal_strlit("json");
    reveal_strlit("css");
    reveal_strlit("xml");
    reveal_strlit("txt");
    reveal_strlit("log");
    reveal_strlit("bmp");
    reveal_strlit("gif");
    reveal_strlit("ico");
    reveal_strlit("jpg");
    reveal_strlit("jpeg");
    reveal_strlit("png");
    reveal_strlit("svg");
    reveal_strlit("tif");
    reveal_strlit("tiff");
    reveal_strlit("webp");
    reveal_strlit("otf");
    reveal_strlit("ttf");
    reveal_strlit("woff");
    reveal_strlit("woff2");
}

/// A name made of a stem, a dot and an extension gets the type that the
/// table gives to that extension. Where the table does not list the
/// extension, and the extension holds no dot of its own, the name gets the
/// configured type.
pub proof fn lemma_mime_by_extension(stem: Seq<char>, ext: Seq<char>, fallback: Seq<char>)
    ensures
        known_type(ext) matches Some(mime) ==> mime_of(stem.push('.') + ext, fallback) == mime,
        known_type(ext) is None && !ext.contains('.') ==> mime_of(stem.push('.') + ext, fallback)
            == fallback,
{
    lemma_known_extensions_hold_no_dot(ext);
    if !ext.contains('.') {
        let name = stem.push('.') + ext;
        lemma_split_append(stem, '.', ext);
        assert(name[stem.len() as int] == '.');
    }
}

/// An error page is served as `text/html`, whatever type is configured for
/// unknown extensions.
pub proof fn lemma_error_page_type()
    ensures
        forall|fallback: Seq<char>| #[trigger] mime_of("error.html"@, fallback) == "text/html"@,
{
    reveal_strlit("error.html");
    reveal_strlit("html");
    let stem = seq!['e', 'r', 'r', 'o', 'r'];
    let ext = seq!['h', 't', 'm', 'l'];
    assert("error.html"@ =~= stem.push('.') + ext);
    assert("html"@ =~= ext);
    lemma_split_append(stem, '.', ext);
    assert("error.html"@[5] == '.');
}

} // verus!
