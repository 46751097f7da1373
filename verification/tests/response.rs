use rusty_website::render::cache;
use rusty_website::response::{
    extension_of, mime_from_ext, nf404, pd403, replace_err_with, route, CheckErr, Host, LookupErr,
    Response, Route,
};

fn error_templates() -> rusty_website::render::Templates {
    cache(
        "",
        "not found page",
        "forbidden page",
        "menu",
        "page",
        "c",
        "g",
        "s",
        "m",
    )
}

#[test]
fn headers_are_prepended_to_the_body() {
    let r = Response {
        status: "HTTP/1.1 200 OK",
        mime_type: "text/html",
        content: b"hi".to_vec(),
    };
    assert_eq!(
        r.prepend_headers(),
        b"HTTP/1.1 200 OK\r\nContent-Length: 2\r\nContent-Type: text/html\r\n\r\nhi".to_vec()
    );
}

#[test]
fn mime_types_resolve_by_extension() {
    assert_eq!(mime_from_ext("jpg"), "image/jpeg");
    assert_eq!(mime_from_ext("png"), "image/png");
    assert_eq!(mime_from_ext("html"), "text/html");
    assert_eq!(mime_from_ext("txt"), "text/plain");
    assert_eq!(mime_from_ext("css"), "text/css");
    assert_eq!(mime_from_ext("xml"), "application/xml");
    assert_eq!(mime_from_ext("mp4"), "video/mp4");
    assert_eq!(mime_from_ext("exe"), "text/plain");
}

#[test]
fn extension_is_what_follows_the_last_dot() {
    assert_eq!(extension_of("archive.tar.gz"), "gz");
    assert_eq!(extension_of("index.html"), "html");
    assert_eq!(extension_of("noext"), "noext");
    assert_eq!(extension_of("trailing."), "");
}

#[test]
fn missing_host_or_path_routes_to_not_found() {
    assert!(matches!(route(&None, &Some("/x".to_string())), Route::NotFound));
    assert!(matches!(route(&Some(Host::Site), &None), Route::NotFound));
    assert!(matches!(route(&None, &None), Route::NotFound));
}

#[test]
fn known_hosts_route_to_their_handlers() {
    match route(&Some(Host::Site), &Some("/a".to_string())) {
        Route::Site(p) => assert_eq!(p, "/a"),
        _ => panic!("expected the static handler"),
    }
    match route(&Some(Host::Mycology), &Some("/b".to_string())) {
        Route::Mycology(p) => assert_eq!(p, "/b"),
        _ => panic!("expected the taxonomy handler"),
    }
}

#[test]
fn missing_host_is_answered_with_the_generic_not_found_body() {
    let t = error_templates();
    match route(&None, &Some("/x".to_string())) {
        Route::NotFound => {
            let r = nf404(&t);
            assert_eq!(r.status, "HTTP/1.1 404 NOT FOUND");
            assert_eq!(r.content, b"not found page".to_vec());
        },
        _ => panic!("expected not found"),
    }
}

#[test]
fn error_pages_carry_their_status() {
    let t = error_templates();
    let nf = nf404(&t);
    assert_eq!(nf.status, "HTTP/1.1 404 NOT FOUND");
    assert_eq!(nf.mime_type, "text/html");
    let pd = pd403(&t);
    assert_eq!(pd.status, "HTTP/1.1 403 FORBIDDEN");
    assert_eq!(pd.content, b"forbidden page".to_vec());
}

#[test]
fn failed_lookups_become_error_pages() {
    let t = error_templates();
    let denied: Result<Response, LookupErr> = Err(LookupErr::PermissionDenied);
    let r = denied.replace_err(&t);
    assert_eq!(r.status, "HTTP/1.1 403 FORBIDDEN");
    let missing: Result<Response, LookupErr> = Err(LookupErr::NotFound);
    let r = replace_err_with(missing, &t);
    assert_eq!(r.status, "HTTP/1.1 404 NOT FOUND");
    let ok: Result<Response, LookupErr> = Ok(Response {
        status: "HTTP/1.1 200 OK",
        mime_type: "text/plain",
        content: b"body".to_vec(),
    });
    let r = replace_err_with(ok, &t);
    assert_eq!(r.status, "HTTP/1.1 200 OK");
    assert_eq!(r.content, b"body".to_vec());
}
