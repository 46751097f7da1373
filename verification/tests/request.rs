use rusty_website::request::{
    arr_u8_from_ip, get_field, get_host, get_ip, get_path, parse_octet, parse_request, IpAddr,
};
use rusty_website::response::Host;

fn lines(ls: &[&str]) -> Vec<String> {
    ls.iter().map(|l| l.to_string()).collect()
}

#[test]
fn path_is_the_second_token_of_the_first_line() {
    let req = lines(&["GET /mycology/pics HTTP/1.1", "Host: localhost:7878"]);
    assert_eq!(get_path(&req), Some("/mycology/pics".to_string()));
}

#[test]
fn missing_second_token_means_no_path() {
    assert_eq!(get_path(&lines(&["GET"])), None);
    assert_eq!(get_path(&lines(&[""])), None);
    assert_eq!(get_path(&lines(&[])), None);
}

#[test]
fn host_matches_the_known_identifiers_exactly() {
    let site = lines(&["GET / HTTP/1.1", "Host: localhost:7878"]);
    let myc = lines(&["GET / HTTP/1.1", "Host: mycology.localhost:7878"]);
    assert_eq!(get_host(&site), Some(Host::Site));
    assert_eq!(get_host(&myc), Some(Host::Mycology));
}

#[test]
fn unknown_or_missing_host_means_no_host() {
    assert_eq!(get_host(&lines(&["GET / HTTP/1.1", "Host: evil.example"])), None);
    assert_eq!(get_host(&lines(&["GET / HTTP/1.1"])), None);
    // case-sensitive: a differently-cased identifier does not match
    assert_eq!(get_host(&lines(&["GET / HTTP/1.1", "Host: Localhost:7878"])), None);
}

#[test]
fn forwarded_ip_splits_into_four_octets() {
    let req = lines(&["GET / HTTP/1.1", "X-Forwarded-For: 81.2.69.160"]);
    assert_eq!(get_ip(&req), Some(IpAddr { a: 81, b: 2, c: 69, d: 160 }));
}

#[test]
fn bad_octets_mean_no_ip() {
    assert_eq!(arr_u8_from_ip("1.2.3.256"), None);
    assert_eq!(arr_u8_from_ip("1.2.3"), None);
    assert_eq!(arr_u8_from_ip("1.2.3.4.5"), None);
    assert_eq!(arr_u8_from_ip("1.2..4"), None);
    assert_eq!(arr_u8_from_ip("a.b.c.d"), None);
    assert_eq!(arr_u8_from_ip("1.2.3.4"), Some(IpAddr { a: 1, b: 2, c: 3, d: 4 }));
}

#[test]
fn octet_parsing_accepts_bytes_only() {
    assert_eq!(parse_octet("0"), Some(0));
    assert_eq!(parse_octet("255"), Some(255));
    assert_eq!(parse_octet("007"), Some(7));
    assert_eq!(parse_octet("256"), None);
    assert_eq!(parse_octet(""), None);
    assert_eq!(parse_octet("12x"), None);
}

#[test]
fn header_fields_match_by_literal_prefix_first_wins() {
    let req = lines(&[
        "GET / HTTP/1.1",
        "User-Agent: one",
        "User-Agent: two",
        "Referer: here",
    ]);
    assert_eq!(get_field(&req, "User-Agent: "), Some("one".to_string()));
    assert_eq!(get_field(&req, "Referer: "), Some("here".to_string()));
    assert_eq!(get_field(&req, "Cookie: "), None);
}

#[test]
fn parse_request_collects_every_field() {
    let req = lines(&[
        "GET /page HTTP/1.1",
        "Host: mycology.localhost:7878",
        "X-Forwarded-For: 10.0.0.1",
        "Referer: /menu",
        "User-Agent: tester",
    ]);
    let info = parse_request(&req);
    assert_eq!(info.host, Some(Host::Mycology));
    assert_eq!(info.path, Some("/page".to_string()));
    assert_eq!(info.ip, Some(IpAddr { a: 10, b: 0, c: 0, d: 1 }));
    assert_eq!(info.referer, Some("/menu".to_string()));
    assert_eq!(info.user_agent, Some("tester".to_string()));
}
