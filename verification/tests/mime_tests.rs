use gotrusty::structs::file::{lookup_type, File};

fn mime(name: &str) -> String {
    File::fetch_mime(name.to_string(), "application/octet-stream")
}

#[test]
fn every_extension_of_the_table_has_its_type() {
    let table = [
        ("html", "text/html"),
        ("htm", "text/html"),
        ("xhtml", "application/xhtml+xml"),
        ("js", "text/javascript"),
        ("json", "application/json"),
        ("css", "text/css"),
        ("xml", "application/xml"),
        ("txt", "text/plain"),
        ("log", "text/plain"),
        ("bmp", "image/bmp"),
        ("gif", "image/gif"),
        ("ico", "image/vnd.microsoft.icon"),
        ("jpg", "image/jpeg"),
        ("jpeg", "image/jpeg"),
        ("png", "image/png"),
        ("svg", "image/svg+xml"),
        ("tif", "image/tiff"),
        ("tiff", "image/tiff"),
        ("webp", "image/webp"),
        ("otf", "font/otf"),
        ("ttf", "font/ttf"),
        ("woff", "font/woff"),
        ("woff2", "font/woff2"),
    ];
    for (ext, expected) in table {
        assert_eq!(mime(&format!("x.{}", ext)), expected);
        assert_eq!(lookup_type(ext), Some(expected));
    }
}

#[test]
fn a_name_without_a_dot_is_plain_text() {
    assert_eq!(mime("README"), "text/plain");
    assert_eq!(mime(""), "text/plain");
    assert_eq!(mime("html"), "text/plain");
}

#[test]
fn an_unknown_extension_gets_the_configured_type() {
    assert_eq!(mime("archive.zip"), "application/octet-stream");
    assert_eq!(File::fetch_mime("archive.zip".to_string(), "text/plain"), "text/plain");
    assert_eq!(File::fetch_mime("archive.zip".to_string(), "x/y"), "x/y");
    assert_eq!(lookup_type("zip"), None);
    assert_eq!(lookup_type(""), None);
}

#[test]
fn the_extension_is_matched_as_written() {
    assert_eq!(mime("x.HTML"), "application/octet-stream");
    assert_eq!(mime("x.Png"), "application/octet-stream");
    assert_eq!(mime("x. html"), "application/octet-stream");
}

#[test]
fn the_extension_follows_the_last_dot() {
    assert_eq!(mime("archive.tar.png"), "image/png");
    assert_eq!(mime("index.html.bak"), "application/octet-stream");
    assert_eq!(mime("x."), "application/octet-stream");
    assert_eq!(mime(".css"), "text/css");
    assert_eq!(mime("a.b/c"), "application/octet-stream");
}

#[test]
fn a_file_keeps_what_it_was_made_of() {
    let file = File::new("logo.png".to_string(), vec![1, 2, 3], "text/plain");
    assert_eq!(file.clone().get_name(), "logo.png");
    assert_eq!(file.clone().get_content(), vec![1, 2, 3]);
    assert_eq!(file.get_mime_type(), "image/png");
}

#[test]
fn an_error_page_is_html_under_a_fixed_name() {
    let bad = File::bad_request(b"<h1>400</h1>".to_vec());
    assert_eq!(bad.clone().get_name(), "error.html");
    assert_eq!(bad.clone().get_mime_type(), "text/html");
    assert_eq!(bad.get_content(), b"<h1>400</h1>".to_vec());
    let missing = File::not_found(b"<h1>404</h1>".to_vec());
    assert_eq!(missing.clone().get_name(), "error.html");
    assert_eq!(missing.clone().get_mime_type(), "text/html");
    assert_eq!(missing.get_content(), b"<h1>404</h1>".to_vec());
}
