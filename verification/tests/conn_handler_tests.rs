use gotrusty::gr_conn_handler::{handler, reader, sender, Action};
use gotrusty::gr_file_handler::{Disk, Entry};
use gotrusty::structs::error::Error;
use gotrusty::structs::file::File;
use gotrusty::structs::response::Response;
use gotrusty::structs::server::Server;

fn lines(text: &[&str]) -> Vec<String> {
    text.iter().map(|line| line.to_string()).collect()
}

fn config() -> Server {
    Server::from_settings(
        Some("127.0.0.1".to_string()),
        Some(8080),
        Some("/srv".to_string()),
        Some("/err".to_string()),
        Some("application/octet-stream".to_string()),
    )
    .unwrap()
}

fn disk(entries: &[(&str, Entry)]) -> Disk {
    let mut disk = Disk::new();
    for (path, entry) in entries {
        disk.record(path.to_string(), entry.clone());
    }
    disk
}

fn file(bytes: &[u8]) -> Entry {
    Entry::Regular(bytes.to_vec())
}

fn read(text: &[&str]) -> Result<(String, String, String, String), Error> {
    reader(&lines(text)).map(|request| {
        let command = request.clone().get_command();
        (
            command.clone().get_method(),
            command.get_path(),
            request.clone().get_host(),
            request.get_user_agent(),
        )
    })
}

fn ok(m: &str, p: &str, h: &str, u: &str) -> Result<(String, String, String, String), Error> {
    Ok((m.to_string(), p.to_string(), h.to_string(), u.to_string()))
}

fn answer(status: &str, mime: &str, body: &[u8]) -> Vec<u8> {
    let mut bytes = format!(
        "HTTP/1.0 {}\nServer: GotRusty/0.1\nContent-Type: {}\nContent-Length: {}\n\n",
        status,
        mime,
        body.len()
    )
    .into_bytes();
    bytes.extend_from_slice(body);
    bytes
}

/// Carries out what `handler` asks for, against a list of lines and a list of
/// what stands on disk, and gives the bytes sent and the places looked at.
fn run(text: &[&str], on_disk: &[(&str, Entry)]) -> (Option<Vec<u8>>, Vec<String>, usize) {
    let config = config();
    let mut read: Vec<String> = Vec::new();
    let mut ended = false;
    let mut disk = Disk::new();
    let mut probed: Vec<String> = Vec::new();
    for _ in 0..100 {
        match handler(&read, ended, &disk, &config) {
            Action::Read => {
                if read.len() < text.len() {
                    read.push(text[read.len()].to_string());
                } else {
                    ended = true;
                }
            }
            Action::Probe(path) => {
                let entry = on_disk
                    .iter()
                    .find(|(at, _)| *at == path)
                    .map(|(_, entry)| entry.clone())
                    .unwrap_or(Entry::Absent);
                probed.push(path.clone());
                disk.record(path, entry);
            }
            Action::Send(bytes) => return (Some(bytes), probed, read.len()),
            Action::Abort => return (None, probed, read.len()),
        }
    }
    panic!("the exchange did not end");
}

#[test]
fn a_request_is_read_from_its_head() {
    assert_eq!(
        read(&["GET /a HTTP/1.0", "Host: x", "User-Agent: y", ""]),
        ok("GET", "/a", "Host: x", "User-Agent: y")
    );
}

#[test]
fn headers_may_be_missing() {
    assert_eq!(read(&["GET / HTTP/1.0"]), ok("GET", "/", "Host: ", "User-Agent: "));
    assert_eq!(read(&["GET / HTTP/1.0", ""]), ok("GET", "/", "Host: ", "User-Agent: "));
    assert_eq!(
        read(&["GET / HTTP/1.0", "Host: x"]),
        ok("GET", "/", "Host: x", "User-Agent: ")
    );
    assert_eq!(
        read(&["GET / HTTP/1.0", "User-Agent: y"]),
        ok("GET", "/", "Host: ", "User-Agent: y")
    );
}

#[test]
fn other_headers_are_passed_over() {
    assert_eq!(
        read(&["GET / HTTP/1.0", "Accept: */*", "host: x", " Host: x", "X-Host: x"]),
        ok("GET", "/", "Host: ", "User-Agent: ")
    );
}

#[test]
fn the_last_header_of_a_name_counts() {
    assert_eq!(
        read(&["GET / HTTP/1.0", "Host: a", "User-Agent: b", "Host: c", "User-Agent: d"]),
        ok("GET", "/", "Host: c", "User-Agent: d")
    );
}

#[test]
fn what_follows_the_empty_line_is_not_read() {
    assert_eq!(
        read(&["GET / HTTP/1.0", "Host: a", "", "Host: b", "User-Agent: c"]),
        ok("GET", "/", "Host: a", "User-Agent: ")
    );
}

#[test]
fn a_request_line_that_looks_like_a_header_is_both() {
    assert_eq!(
        read(&["Host: /x HTTP/1.0"]),
        ok("Host:", "/x", "Host: /x HTTP/1.0", "User-Agent: ")
    );
}

#[test]
fn a_request_without_request_line_is_bad() {
    assert_eq!(read(&[]), Err(Error::BadRequest));
    assert_eq!(read(&[""]), Err(Error::BadRequest));
    assert_eq!(read(&["", "GET / HTTP/1.0"]), Err(Error::BadRequest));
    assert_eq!(read(&["GET /"]), Err(Error::BadRequest));
    assert_eq!(read(&["Host: x", "GET / HTTP/1.0"]), Err(Error::BadRequest));
    assert_eq!(read(&["HTTP/1.0"]), Err(Error::BadRequest));
}

#[test]
fn a_response_goes_out_line_by_line_then_the_body() {
    let file = File::new("index.html".to_string(), b"hello".to_vec(), "text/plain");
    let bytes = sender(Response::new("200 OK", file));
    assert_eq!(
        bytes,
        b"HTTP/1.0 200 OK\nServer: GotRusty/0.1\nContent-Type: text/html\n\
          Content-Length: 5\n\nhello"
            .to_vec()
    );
}

#[test]
fn nothing_is_added_to_the_body() {
    let file = File::new("a.bin".to_string(), vec![0, 10, 13, 255], "x/y");
    let bytes = sender(Response::new("200 OK", file));
    assert_eq!(bytes, answer("200 OK", "x/y", &[0, 10, 13, 255]));
    assert!(bytes.ends_with(&[b'\n', b'\n', 0, 10, 13, 255]));
    let empty = sender(Response::new("200 OK", File::new("e".to_string(), vec![], "x/y")));
    assert_eq!(
        empty,
        b"HTTP/1.0 200 OK\nServer: GotRusty/0.1\nContent-Type: text/plain\nContent-Length: 0\n\n"
            .to_vec()
    );
}

#[test]
fn get_root_is_answered_with_the_index_page() {
    let body = b"<h1>It works</h1>";
    let (sent, probed, read) = run(
        &["GET / HTTP/1.0", "Host: x", ""],
        &[("/srv", Entry::Directory), ("/srv/index.html", file(body))],
    );
    assert_eq!(sent, Some(answer("200 OK", "text/html", body)));
    assert_eq!(probed, vec!["/srv", "/srv/index.html"]);
    assert_eq!(read, 3);
}

#[test]
fn a_line_without_marker_is_answered_with_the_400_page() {
    let page = b"<h1>400</h1>";
    let (sent, probed, read) = run(
        &["GET /", "Host: x", ""],
        &[("/err/400.html", file(page)), ("/srv", Entry::Directory)],
    );
    assert_eq!(sent, Some(answer("400 Bad Request", "text/html", page)));
    assert_eq!(probed, vec!["/err/400.html"]);
    assert_eq!(read, 1);
}

#[test]
fn an_empty_request_is_answered_with_the_400_page() {
    let page = b"bad";
    let on_disk = [("/err/400.html", file(page))];
    assert_eq!(run(&[], &on_disk).0, Some(answer("400 Bad Request", "text/html", page)));
    assert_eq!(run(&[""], &on_disk).0, Some(answer("400 Bad Request", "text/html", page)));
}

#[test]
fn a_missing_file_is_answered_with_the_404_page() {
    let page = b"<h1>404</h1>";
    let (sent, probed, _) = run(
        &["GET /missing.txt HTTP/1.0", ""],
        &[("/err/404.html", file(page)), ("/srv/other.txt", file(b"x"))],
    );
    assert_eq!(sent, Some(answer("404 Not Found", "text/html", page)));
    assert_eq!(probed, vec!["/srv/missing.txt", "/err/404.html"]);
}

#[test]
fn a_picture_is_answered_with_its_bytes() {
    let png = [0x89, 0x50, 0x4e, 0x47, 0x0d, 0x0a, 0x1a, 0x0a, 0, 255];
    let (sent, probed, _) =
        run(&["GET /logo.png HTTP/1.0", ""], &[("/srv/logo.png", file(&png))]);
    assert_eq!(sent, Some(answer("200 OK", "image/png", &png)));
    assert_eq!(probed, vec!["/srv/logo.png"]);
}

#[test]
fn a_directory_and_its_index_page_get_the_same_answer() {
    let on_disk = [("/srv/docs", Entry::Directory), ("/srv/docs/index.html", file(b"docs"))];
    let by_directory = run(&["GET /docs HTTP/1.0", ""], &on_disk).0;
    let by_page = run(&["GET /docs/index.html HTTP/1.0", ""], &on_disk).0;
    assert_eq!(by_directory, by_page);
    assert_eq!(by_directory, Some(answer("200 OK", "text/html", b"docs")));
}

#[test]
fn a_directory_without_index_page_is_answered_with_404() {
    let (sent, probed, _) = run(
        &["GET /docs HTTP/1.0", ""],
        &[("/srv/docs", Entry::Directory), ("/err/404.html", file(b"gone"))],
    );
    assert_eq!(sent, Some(answer("404 Not Found", "text/html", b"gone")));
    assert_eq!(probed, vec!["/srv/docs", "/srv/docs/index.html", "/err/404.html"]);
}

#[test]
fn a_path_out_of_the_root_is_answered_with_404_unlooked() {
    let (sent, probed, _) = run(
        &["GET /../etc/passwd HTTP/1.0", ""],
        &[("/etc/passwd", file(b"root")), ("/err/404.html", file(b"gone"))],
    );
    assert_eq!(sent, Some(answer("404 Not Found", "text/html", b"gone")));
    assert_eq!(probed, vec!["/err/404.html"]);
}

#[test]
fn the_same_request_gets_the_same_answer() {
    let on_disk = [("/srv/a.css", file(b"p{}"))];
    let first = run(&["GET /a.css HTTP/1.0", ""], &on_disk);
    let second = run(&["GET /a.css HTTP/1.0", ""], &on_disk);
    assert_eq!(first, second);
    assert_eq!(first.0, Some(answer("200 OK", "text/css", b"p{}")));
}

#[test]
fn the_stream_may_end_without_an_empty_line() {
    let (sent, _, read) = run(&["GET /a.txt HTTP/1.0", "Host: x"], &[("/srv/a.txt", file(b"a"))]);
    assert_eq!(sent, Some(answer("200 OK", "text/plain", b"a")));
    assert_eq!(read, 2);
}

#[test]
fn lines_are_read_until_the_empty_line() {
    let config = config();
    let disk = Disk::new();
    assert!(matches!(handler(&lines(&[]), false, &disk, &config), Action::Read));
    assert!(matches!(handler(&lines(&["GET / HTTP/1.0"]), false, &disk, &config), Action::Read));
    assert!(matches!(
        handler(&lines(&["GET / HTTP/1.0", "Host: x"]), false, &disk, &config),
        Action::Read
    ));
    assert!(matches!(
        handler(&lines(&["GET / HTTP/1.0", "Host: x", ""]), false, &disk, &config),
        Action::Probe(path) if path == "/srv"
    ));
    assert!(matches!(
        handler(&lines(&["GET / HTTP/1.0"]), true, &disk, &config),
        Action::Probe(path) if path == "/srv"
    ));
}

#[test]
fn an_error_page_that_cannot_be_read_ends_the_exchange() {
    let (sent, probed, _) = run(&["GET /"], &[]);
    assert_eq!(sent, None);
    assert_eq!(probed, vec!["/err/400.html"]);
    let (sent, probed, _) = run(&["GET /x HTTP/1.0", ""], &[("/err/404.html", Entry::Directory)]);
    assert_eq!(sent, None);
    assert_eq!(probed, vec!["/srv/x", "/err/404.html"]);
}
