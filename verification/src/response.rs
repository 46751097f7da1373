//! Responses: status lines, MIME resolution, header serialization, the
//! host-based router, and the error pages.

use vstd::prelude::*;
use vstd::utf8::encode_utf8;

use crate::consts;
use crate::render::Templates;
use crate::text;

verus! {

/// The two virtual hosts the server answers for.
#[derive(Clone, Copy, PartialEq, Eq, Structural, Debug)]
pub enum Host {
    Site,
    Mycology,
}

/// A response before serialization: status line, MIME type, body bytes.
pub struct Response {
    pub status: &'static str,
    pub mime_type: &'static str,
    pub content: Vec<u8>,
}

/// The serialized header block in front of a body of length `len`.
pub open spec fn headers_spec(status: Seq<char>, len: nat, mime: Seq<char>) -> Seq<char> {
    status + "\r\nContent-Length: "@ + text::dec_spec(len) + "\r\nContent-Type: "@ + mime
        + "\r\n\r\n"@
}

impl Response {
    /// Serializes the response: status line, Content-Length and
    /// Content-Type headers, a blank line, then the body bytes.
    pub fn prepend_headers(self) -> (r: Vec<u8>)
        ensures
            r@ == encode_utf8(
                headers_spec(self.status@, self.content@.len(), self.mime_type@),
            ) + self.content@,
    {
        let mut header = String::new();
        header.append(self.status);
        header.append("\r\nContent-Length: ");
        let len_str = text::usize_to_string(self.content.len());
        header.append(len_str.as_str());
        header.append("\r\nContent-Type: ");
        header.append(self.mime_type);
        header.append("\r\n\r\n");
        let mut bytes = header.as_str().as_bytes_vec();
        let content = self.content;
        let n = content.len();
        let mut i: usize = 0;
        proof {
            assert(content@.take(0) =~= Seq::<u8>::empty());
            assert(bytes@ + content@.take(0) =~= bytes@);
        }
        let ghost head = bytes@;
        while i < n
            invariant
                i <= n,
                n == content@.len(),
                bytes@ == head + content@.take(i as int),
            decreases n - i,
        {
            bytes.push(content[i]);
            proof {
                assert(head + content@.take(i + 1) =~= (head + content@.take(i as int)).push(
                    content@[i as int],
                ));
            }
            i += 1;
        }
        proof {
            assert(content@.take(n as int) =~= content@);
        }
        bytes
    }
}

/// The MIME type for a file extension, out of the fixed table; anything
/// unknown is plain text.
pub open spec fn mime_spec(e: Seq<char>) -> Seq<char> {
    if e == "jpg"@ {
        "image/jpeg"@
    } else if e == "png"@ {
        "image/png"@
    } else if e == "html"@ {
        "text/html"@
    } else if e == "txt"@ {
        "text/plain"@
    } else if e == "css"@ {
        "text/css"@
    } else if e == "xml"@ {
        "application/xml"@
    } else if e == "mp4"@ {
        "video/mp4"@
    } else {
        "text/plain"@
    }
}

/// Resolves a file extension against the MIME table.
pub fn mime_from_ext(ext: &str) -> (r: &'static str)
    ensures
        r@ == mime_spec(ext@),
{
    if text::str_eq(ext, "jpg") {
        "image/jpeg"
    } else if text::str_eq(ext, "png") {
        "image/png"
    } else if text::str_eq(ext, "html") {
        "text/html"
    } else if text::str_eq(ext, "txt") {
        "text/plain"
    } else if text::str_eq(ext, "css") {
        "text/css"
    } else if text::str_eq(ext, "xml") {
        "application/xml"
    } else if text::str_eq(ext, "mp4") {
        "video/mp4"
    } else {
        "text/plain"
    }
}

/// The extension a path's MIME type is resolved by: what follows the last
/// dot, or the whole path where it has no dot.
pub open spec fn extension_spec(path: Seq<char>) -> Seq<char> {
    text::split_spec(path, '.').last()
}

/// Extracts the extension of a file path.
pub fn extension_of(path: &str) -> (r: String)
    ensures
        r@ == extension_spec(path@),
{
    let parts = text::split_char(path, '.');
    parts[parts.len() - 1].clone()
}

/// Where a request is sent, by virtual host.
pub enum Route {
    /// No host or no path: answered with the generic not-found page,
    /// without touching the file tree or the taxonomy.
    NotFound,
    /// The static-file host: look the path up under the file tree.
    Site(String),
    /// The encyclopedia host: render from the taxonomy.
    Mycology(String),
}

/// The pure router: a known host and a path pick a handler; anything else
/// is immediately not found.
pub fn route(host: &Option<Host>, path: &Option<String>) -> (r: Route)
    ensures
        (r is NotFound) <==> (host is None || path is None),
        *host == Some(Host::Site) ==> match (path, &r) {
            (Some(p), Route::Site(q)) => q@ == p@,
            (None, Route::NotFound) => true,
            _ => false,
        },
        *host == Some(Host::Mycology) ==> match (path, &r) {
            (Some(p), Route::Mycology(q)) => q@ == p@,
            (None, Route::NotFound) => true,
            _ => false,
        },
{
    match (host, path) {
        (Some(Host::Site), Some(p)) => Route::Site(p.clone()),
        (Some(Host::Mycology), Some(p)) => Route::Mycology(p.clone()),
        _ => Route::NotFound,
    }
}

/// The generic not-found response: the cached 404 page.
pub fn nf404(templates: &Templates) -> (r: Response)
    ensures
        r.status@ == consts::HTTP_404@,
        r.mime_type@ == "text/html"@,
        r.content@ == encode_utf8(templates.nf404@),
{
    Response {
        status: consts::HTTP_404,
        mime_type: "text/html",
        content: templates.nf404.as_str().as_bytes_vec(),
    }
}

/// The permission-denied response: the cached 403 page.
pub fn pd403(templates: &Templates) -> (r: Response)
    ensures
        r.status@ == consts::HTTP_403@,
        r.mime_type@ == "text/html"@,
        r.content@ == encode_utf8(templates.pd403@),
{
    Response {
        status: consts::HTTP_403,
        mime_type: "text/html",
        content: templates.pd403.as_str().as_bytes_vec(),
    }
}

/// How a static lookup failed, as the handler classifies it.
#[derive(Clone, Copy, PartialEq, Eq, Structural, Debug)]
pub enum LookupErr {
    PermissionDenied,
    NotFound,
}

/// Replaces a failed static lookup with the matching error page: permission
/// denied turns into the 403 page, anything else into the 404 page.
pub fn replace_err_with(res: Result<Response, LookupErr>, templates: &Templates) -> (r: Response)
    ensures
        match res {
            Ok(v) => r == v,
            Err(e) => if e == LookupErr::PermissionDenied {
                r.status@ == consts::HTTP_403@ && r.content@ == encode_utf8(templates.pd403@)
                    && r.mime_type@ == "text/html"@
            } else {
                r.status@ == consts::HTTP_404@ && r.content@ == encode_utf8(templates.nf404@)
                    && r.mime_type@ == "text/html"@
            },
        },
{
    match res {
        Ok(v) => v,
        Err(LookupErr::PermissionDenied) => pd403(templates),
        Err(LookupErr::NotFound) => nf404(templates),
    }
}

/// Error replacement as the handlers invoke it.
pub trait CheckErr {
    fn replace_err(self, templates: &Templates) -> Response;
}

impl CheckErr for Result<Response, LookupErr> {
    fn replace_err(self, templates: &Templates) -> Response {
        replace_err_with(self, templates)
    }
}

} // verus!
