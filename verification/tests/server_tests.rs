use config::{Config, ConfigError};
use gotrusty::structs::server::Server;

fn settings(pairs: &[(&str, &str)]) -> Config {
    let mut builder = Config::builder();
    for (key, value) in pairs {
        builder = builder.set_override(*key, *value).unwrap();
    }
    builder.build().unwrap()
}

const FULL: [(&str, &str); 5] = [
    ("addr", "10.1.2.3"),
    ("port", "8080"),
    ("file_root", "/srv/www"),
    ("errors_root", "/srv/errors"),
    ("mime_default", "application/octet-stream"),
];

#[test]
fn a_dotted_address_gives_four_octets() {
    assert_eq!(Server::parse_addr("127.0.0.1"), Some([127, 0, 0, 1]));
    assert_eq!(Server::parse_addr("0.0.0.0"), Some([0, 0, 0, 0]));
    assert_eq!(Server::parse_addr("254.254.254.254"), Some([254, 254, 254, 254]));
    assert_eq!(Server::parse_addr("192.168.1.42"), Some([192, 168, 1, 42]));
}

#[test]
fn a_part_may_have_a_plus_or_leading_zeros() {
    assert_eq!(Server::parse_addr("+1.2.3.4"), Some([1, 2, 3, 4]));
    assert_eq!(Server::parse_addr("001.02.3.0004"), Some([1, 2, 3, 4]));
    assert_eq!(Server::parse_addr("0000000000000000000001.2.3.4"), Some([1, 2, 3, 4]));
}

#[test]
fn a_part_above_254_is_no_octet() {
    assert_eq!(Server::parse_addr("255.0.0.1"), None);
    assert_eq!(Server::parse_addr("1.2.3.255"), None);
    assert_eq!(Server::parse_addr("256.0.0.1"), None);
    assert_eq!(Server::parse_addr("1.2.3.99999999999999999999"), None);
}

#[test]
fn an_address_has_exactly_four_parts() {
    assert_eq!(Server::parse_addr("1.2.3"), None);
    assert_eq!(Server::parse_addr("1.2.3.4.5"), None);
    assert_eq!(Server::parse_addr(""), None);
    assert_eq!(Server::parse_addr("1.2.3."), None);
    assert_eq!(Server::parse_addr(".1.2.3"), None);
    assert_eq!(Server::parse_addr("1..2.3"), None);
}

#[test]
fn a_part_is_made_of_digits() {
    assert_eq!(Server::parse_addr("a.b.c.d"), None);
    assert_eq!(Server::parse_addr("1.2.3.4 "), None);
    assert_eq!(Server::parse_addr("-1.2.3.4"), None);
    assert_eq!(Server::parse_addr("+.2.3.4"), None);
    assert_eq!(Server::parse_addr("++1.2.3.4"), None);
    assert_eq!(Server::parse_addr("1+.2.3.4"), None);
    assert_eq!(Server::parse_addr("localhost"), None);
    assert_eq!(Server::parse_addr("١.2.3.4"), None);
}

#[test]
fn the_fallback_server_has_the_default_settings() {
    let server = Server::fallback();
    assert_eq!(server.get_addr(), [127, 0, 0, 1]);
    assert_eq!(server.get_port(), 1337);
    assert_eq!(server.get_file_root(), ".");
    assert_eq!(server.get_errors_root(), "./error");
    assert_eq!(server.get_mime_default(), "text/plain");
}

#[test]
fn a_new_server_listens_where_it_is_told() {
    let server = Server::new("10.0.0.7", 80);
    assert_eq!(server.get_addr(), [10, 0, 0, 7]);
    assert_eq!(server.get_port(), 80);
    assert_eq!(server.get_file_root(), ".");
    assert_eq!(server.get_errors_root(), "./error");
    assert_eq!(server.get_mime_default(), "text/plain");
}

#[test]
fn five_settings_make_a_server() {
    let server = Server::from_settings(
        Some("10.1.2.3".to_string()),
        Some(8080),
        Some("/srv/www".to_string()),
        Some("/srv/errors".to_string()),
        Some("x/y".to_string()),
    )
    .unwrap();
    assert_eq!(server.get_addr(), [10, 1, 2, 3]);
    assert_eq!(server.get_port(), 8080);
    assert_eq!(server.get_file_root(), "/srv/www");
    assert_eq!(server.get_errors_root(), "/srv/errors");
    assert_eq!(server.get_mime_default(), "x/y");
    let copy = server.clone();
    assert_eq!(copy.get_addr(), [10, 1, 2, 3]);
    assert_eq!(copy.get_file_root(), "/srv/www");
}

#[test]
fn a_missing_setting_makes_no_server() {
    let text = || Some("x".to_string());
    let addr = || Some("1.2.3.4".to_string());
    assert!(Server::from_settings(None, Some(1), text(), text(), text()).is_none());
    assert!(Server::from_settings(addr(), None, text(), text(), text()).is_none());
    assert!(Server::from_settings(addr(), Some(1), None, text(), text()).is_none());
    assert!(Server::from_settings(addr(), Some(1), text(), None, text()).is_none());
    assert!(Server::from_settings(addr(), Some(1), text(), text(), None).is_none());
    assert!(Server::from_settings(addr(), Some(1), text(), text(), text()).is_some());
}

#[test]
fn a_bad_address_makes_no_server() {
    let text = || Some("x".to_string());
    let bad = Some("1.2.3.255".to_string());
    assert!(Server::from_settings(bad, Some(1), text(), text(), text()).is_none());
}

#[test]
fn without_settings_the_server_falls_back() {
    let server = Server::read_config(Err(ConfigError::Message("no file".to_string()))).unwrap();
    assert_eq!(server.get_addr(), [127, 0, 0, 1]);
    assert_eq!(server.get_port(), 1337);
    assert_eq!(server.get_file_root(), ".");
    assert_eq!(server.get_errors_root(), "./error");
    assert_eq!(server.get_mime_default(), "text/plain");
}

#[test]
fn gathered_settings_are_taken_over() {
    let server = Server::read_config(Ok(settings(&FULL))).unwrap();
    assert_eq!(server.get_addr(), [10, 1, 2, 3]);
    assert_eq!(server.get_port(), 8080);
    assert_eq!(server.get_file_root(), "/srv/www");
    assert_eq!(server.get_errors_root(), "/srv/errors");
    assert_eq!(server.get_mime_default(), "application/octet-stream");
}

#[test]
fn a_port_given_as_a_number_is_taken_over() {
    let found = Config::builder()
        .set_override("addr", "10.1.2.3")
        .unwrap()
        .set_override("port", 4242)
        .unwrap()
        .set_override("file_root", "a")
        .unwrap()
        .set_override("errors_root", "b")
        .unwrap()
        .set_override("mime_default", "c")
        .unwrap()
        .build()
        .unwrap();
    let server = Server::read_config(Ok(found)).unwrap();
    assert_eq!(server.get_port(), 4242);
    assert_eq!(server.get_file_root(), "a");
    assert_eq!(server.get_errors_root(), "b");
    assert_eq!(server.get_mime_default(), "c");
}

#[test]
fn each_setting_is_needed() {
    for skip in 0..5 {
        let mut pairs = FULL.to_vec();
        pairs.remove(skip);
        assert!(Server::read_config(Ok(settings(&pairs))).is_none());
    }
    assert!(Server::read_config(Ok(settings(&[]))).is_none());
}

#[test]
fn settings_with_a_bad_address_or_port_make_no_server() {
    let mut pairs = FULL.to_vec();
    pairs[0] = ("addr", "localhost");
    assert!(Server::read_config(Ok(settings(&pairs))).is_none());
    let mut pairs = FULL.to_vec();
    pairs[1] = ("port", "http");
    assert!(Server::read_config(Ok(settings(&pairs))).is_none());
}
