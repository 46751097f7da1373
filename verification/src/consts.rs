//! Fixed strings of the server: header markers, virtual-host names, status
//! lines, and the filesystem locations that the surrounding program reads.

use vstd::prelude::*;

verus! {

/// The literal prefixes that mark the request header fields of interest.
pub struct ReqFields {
    pub ip: &'static str,
    pub referer: &'static str,
    pub user_agent: &'static str,
}

/// Filesystem locations of the static tree, the error pages, and the HTML
/// skeletons and fragments; the surrounding program reads them.
pub struct Paths {
    pub root: &'static str,
    pub nf404: &'static str,
    pub pd403: &'static str,
    pub meta: &'static str,
    pub menu: &'static str,
    pub shroompage: &'static str,
    pub frag_category: &'static str,
    pub frag_genus: &'static str,
    pub frag_species: &'static str,
    pub frag_menu: &'static str,
}

pub const IP_FIELD: &'static str = "X-Forwarded-For: ";

pub const REFERER_FIELD: &'static str = "Referer: ";

pub const USER_AGENT_FIELD: &'static str = "User-Agent: ";

pub const HOST_FIELD: &'static str = "Host: ";

/// The virtual host that serves the static file tree.
pub const NO_DOMAIN: &'static str = "localhost:7878";

/// The virtual host that serves the mushroom encyclopedia.
pub const MYCOLOGY: &'static str = "mycology.localhost:7878";

pub const HTTP_200: &'static str = "HTTP/1.1 200 OK";

pub const HTTP_404: &'static str = "HTTP/1.1 404 NOT FOUND";

pub const HTTP_403: &'static str = "HTTP/1.1 403 FORBIDDEN";

pub const YAML_FILE: &'static str = "/var/www/html/data/shroom_info.yaml";

pub const IMAGE_DIR: &'static str = "/var/www/html/mycology/Smallimages";

pub const LOG_FILE: &'static str = "/home/muesli/rusty_website.log";

/// The header markers, bundled.
pub fn fields() -> (r: ReqFields)
    ensures
        r.ip@ == IP_FIELD@,
        r.referer@ == REFERER_FIELD@,
        r.user_agent@ == USER_AGENT_FIELD@,
{
    ReqFields { ip: IP_FIELD, referer: REFERER_FIELD, user_agent: USER_AGENT_FIELD }
}

/// The file locations, bundled.
pub fn site_paths() -> (r: Paths)
    ensures
        r.root@ == "/var/www/html"@,
        r.nf404@ == "/var/www/html/data/404.html"@,
        r.pd403@ == "/var/www/html/data/403.html"@,
{
    Paths {
        root: "/var/www/html",
        nf404: "/var/www/html/data/404.html",
        pd403: "/var/www/html/data/403.html",
        meta: "/var/www/html/data/meta.html",
        menu: "/var/www/html/data/menu.html",
        shroompage: "/var/www/html/data/page.html",
        frag_category: "/var/www/html/data/fragments/category.html",
        frag_genus: "/var/www/html/data/fragments/genus.html",
        frag_species: "/var/www/html/data/fragments/species.html",
        frag_menu: "/var/www/html/data/fragments/menu.html",
    }
}

} // verus!
