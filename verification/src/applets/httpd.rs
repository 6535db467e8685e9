//! httpd: its options, what it answers to a request line, where a request
//! path leads, and the headers and pages it sends.
use vstd::prelude::*;
use crate::num::{decimal, fmt_dec, parse_dec, parse_dec_exec};
pub use crate::paths::{join_path, join_path_spec, path_starts_with, path_within};
use crate::text::{chars_of, chars_of_all, ends_with, ends_with_lit, eq_lit, push_all, push_str, replace_exec, replace_text, starts_with, starts_with_lit, string_of, to_string, trim_char_start, views, vviews, words, words_exec};

verus! {

/// How the server is run.
pub struct HttpdConfig {
    pub port: u16,
    pub root: String,
    pub foreground: bool,
}

pub struct ConfigView {
    pub port: u16,
    pub root: Seq<char>,
    pub foreground: bool,
}

impl View for HttpdConfig {
    type V = ConfigView;

    open spec fn view(&self) -> ConfigView {
        ConfigView { port: self.port, root: self.root@, foreground: self.foreground }
    }
}

/// A port number, or 80 where the text is not one.
pub open spec fn port_or_default(s: Seq<char>) -> u16 {
    match parse_dec(s, u16::MAX as nat) {
        Some(v) => v as u16,
        None => 80,
    }
}

/// Reading the options from `i` on: `-p PORT`, `-h HOME`, `-f`, a word
/// that does not start with `-` is the home directory; `None`: help was
/// asked for.
pub open spec fn config_scan(args: Seq<Seq<char>>, i: int, c: ConfigView) -> Option<ConfigView>
    decreases args.len() - i,
{
    if i < 0 || i >= args.len() {
        Some(c)
    } else {
        let a = args[i];
        if a == "-p"@ {
            if i + 1 < args.len() {
                config_scan(args, i + 2, ConfigView { port: port_or_default(args[i + 1]), ..c })
            } else {
                Some(c)
            }
        } else if a == "-h"@ {
            if i + 1 < args.len() {
                config_scan(args, i + 2, ConfigView { root: args[i + 1], ..c })
            } else {
                Some(c)
            }
        } else if a == "-f"@ {
            config_scan(args, i + 1, ConfigView { foreground: true, ..c })
        } else if a == "--help"@ {
            None
        } else if !starts_with(a, "-"@) {
            config_scan(args, i + 1, ConfigView { root: a, ..c })
        } else {
            config_scan(args, i + 1, c)
        }
    }
}

pub open spec fn default_config() -> ConfigView {
    ConfigView { port: 80, root: "/var/www"@, foreground: false }
}

/// Reads the options of an invocation; `None` where help was asked for.
pub fn parse_args(args: &[String]) -> (r: Option<HttpdConfig>)
    ensures
        match r {
            Some(c) => config_scan(views(args@), 0, default_config()) == Some(c@),
            None => config_scan(views(args@), 0, default_config()) is None,
        },
{
    let ghost av = views(args@);
    let cs = chars_of_all(args);
    let mut c = HttpdConfig { port: 80, root: to_string("/var/www"), foreground: false };
    let n = args.len();
    let mut i: usize = 0;
    while i < n
        invariant
            n == args@.len(),
            cs@.len() == n,
            av == views(args@),
            forall|k: int| 0 <= k < n ==> #[trigger] cs@[k]@ == args@[k]@,
            i <= n,
            config_scan(av, i as int, c@) == config_scan(av, 0, default_config()),
        decreases n - i,
    {
        let a = cs[i].as_slice();
        assert(av[i as int] == a@);
        if eq_lit(a, "-p") {
            if i + 1 < n {
                assert(av[i + 1] == cs@[i + 1]@);
                c.port = match parse_dec_exec(cs[i + 1].as_slice(), 65535) {
                    Some(v) => v as u16,
                    None => 80,
                };
                i = i + 2;
            } else {
                return Some(c);
            }
        } else if eq_lit(a, "-h") {
            if i + 1 < n {
                assert(av[i + 1] == cs@[i + 1]@);
                c.root = args[i + 1].clone();
                i = i + 2;
            } else {
                return Some(c);
            }
        } else if eq_lit(a, "-f") {
            c.foreground = true;
            i = i + 1;
        } else if eq_lit(a, "--help") {
            return None;
        } else if !starts_with_lit(a, "-") {
            c.root = args[i].clone();
            i = i + 1;
        } else {
            i = i + 1;
        }
    }
    Some(c)
}

/// What is done with a request.
pub enum Route {
    /// Send this answer and close.
    Reply(String),
    /// Look for the file at `rel` under the home directory; send its
    /// contents after the header only for `GET`.
    Serve { send_body: bool, rel: String },
}

pub enum RouteView {
    Reply(Seq<char>),
    Serve { send_body: bool, rel: Seq<char> },
}

impl View for Route {
    type V = RouteView;

    open spec fn view(&self) -> RouteView {
        match self {
            Route::Reply(s) => RouteView::Reply(s@),
            Route::Serve { send_body, rel } => RouteView::Serve { send_body: *send_body, rel: rel@ },
        }
    }
}

/// The answer to a request line: `400` without a method and a path, `405`
/// for a method other than `GET` and `HEAD`; else the path with `%20`
/// read as a space and without its leading `/`s.
pub open spec fn route_spec(line: Seq<char>) -> RouteView {
    let parts = words(line);
    if parts.len() < 2 {
        RouteView::Reply("HTTP/1.0 400 Bad Request\r\n\r\n"@)
    } else if parts[0] != "GET"@ && parts[0] != "HEAD"@ {
        RouteView::Reply("HTTP/1.0 405 Method Not Allowed\r\n\r\n"@)
    } else {
        RouteView::Serve {
            send_body: parts[0] == "GET"@,
            rel: trim_char_start(replace_text(parts[1], "%20"@, " "@), '/'),
        }
    }
}

/// What is done with the request line `line`.
pub fn route(line: &str) -> (r: Route)
    ensures
        r@ == route_spec(line@),
{
    let lc = chars_of(line);
    let parts = words_exec(lc.as_slice());
    if parts.len() < 2 {
        return Route::Reply(to_string("HTTP/1.0 400 Bad Request\r\n\r\n"));
    }
    assert(vviews(parts@)[0] == parts@[0]@);
    assert(vviews(parts@)[1] == parts@[1]@);
    let is_get = eq_lit(parts[0].as_slice(), "GET");
    let is_head = eq_lit(parts[0].as_slice(), "HEAD");
    if !is_get && !is_head {
        return Route::Reply(to_string("HTTP/1.0 405 Method Not Allowed\r\n\r\n"));
    }
    let decoded = replace_exec(parts[1].as_slice(), "%20", " ");
    let mut a: usize = 0;
    assert(decoded@.skip(0) =~= decoded@);
    while a < decoded.len() && decoded[a] == '/'
        invariant
            a <= decoded@.len(),
            trim_char_start(decoded@.skip(a as int), '/') == trim_char_start(decoded@, '/'),
        decreases decoded@.len() - a,
    {
        assert(decoded@.skip(a as int).drop_first() =~= decoded@.skip(a + 1));
        a = a + 1;
    }
    let rel = crate::text::slice_chars(decoded.as_slice(), a, decoded.len());
    assert(rel@ =~= decoded@.skip(a as int));
    Route::Serve { send_body: is_get, rel: string_of(rel.as_slice()) }
}

/// A header line that ends the request's headers: empty, or a lone `\r`.
pub fn is_header_end(line: &str) -> (r: bool)
    ensures
        r == (line@.len() == 0 || line@ == "\r"@),
{
    let lc = chars_of(line);
    lc.len() == 0 || eq_lit(lc.as_slice(), "\r")
}

/// The content type of a file, by its name's ending.
pub open spec fn mime_spec(path: Seq<char>) -> Seq<char> {
    if ends_with(path, ".html"@) || ends_with(path, ".htm"@) {
        "text/html"@
    } else if ends_with(path, ".css"@) {
        "text/css"@
    } else if ends_with(path, ".js"@) {
        "application/javascript"@
    } else if ends_with(path, ".json"@) {
        "application/json"@
    } else if ends_with(path, ".png"@) {
        "image/png"@
    } else if ends_with(path, ".jpg"@) || ends_with(path, ".jpeg"@) {
        "image/jpeg"@
    } else if ends_with(path, ".gif"@) {
        "image/gif"@
    } else if ends_with(path, ".svg"@) {
        "image/svg+xml"@
    } else if ends_with(path, ".txt"@) {
        "text/plain"@
    } else {
        "application/octet-stream"@
    }
}

/// The content type of the file at `path`.
pub fn guess_mime(path: &str) -> (r: &'static str)
    ensures
        r@ == mime_spec(path@),
{
    let p = chars_of(path);
    let s = p.as_slice();
    if ends_with_lit(s, ".html") || ends_with_lit(s, ".htm") {
        "text/html"
    } else if ends_with_lit(s, ".css") {
        "text/css"
    } else if ends_with_lit(s, ".js") {
        "application/javascript"
    } else if ends_with_lit(s, ".json") {
        "application/json"
    } else if ends_with_lit(s, ".png") {
        "image/png"
    } else if ends_with_lit(s, ".jpg") || ends_with_lit(s, ".jpeg") {
        "image/jpeg"
    } else if ends_with_lit(s, ".gif") {
        "image/gif"
    } else if ends_with_lit(s, ".svg") {
        "image/svg+xml"
    } else if ends_with_lit(s, ".txt") {
        "text/plain"
    } else {
        "application/octet-stream"
    }
}

/// The header of a successful answer.
pub open spec fn ok_header_spec(mime: Seq<char>, len: nat) -> Seq<char> {
    "HTTP/1.0 200 OK\r\nContent-Type: "@ + mime + "\r\nContent-Length: "@ + decimal(len)
        + "\r\n\r\n"@
}

/// The header of a successful answer carrying `len` bytes of type `mime`.
pub fn ok_header(mime: &str, len: usize) -> (r: String)
    ensures
        r@ == ok_header_spec(mime@, len as nat),
{
    let mut out = chars_of("HTTP/1.0 200 OK\r\nContent-Type: ");
    let mc = chars_of(mime);
    push_all(&mut out, mc.as_slice());
    push_str(&mut out, "\r\nContent-Length: ");
    let d = fmt_dec(len as u64);
    push_all(&mut out, d.as_slice());
    push_str(&mut out, "\r\n\r\n");
    assert(out@ =~= ok_header_spec(mime@, len as nat));
    string_of(out.as_slice())
}

/// Whether a request may be served.
#[derive(PartialEq, Eq, Structural, Clone, Copy)]
pub enum Access {
    /// No such file: 404.
    NotFound,
    /// The file lies outside the served root: 403.
    Forbidden,
    /// Serve it.
    Allowed,
}

/// The access to a file by the canonical served root and the file's
/// canonical path, if any (see `access`).
pub open spec fn access_spec(root: Seq<char>, target: Option<Seq<char>>) -> Access {
    match target {
        None => Access::NotFound,
        Some(t) => if path_starts_with(t, root) {
            Access::Allowed
        } else {
            Access::Forbidden
        },
    }
}

/// The access to a request's file, by the canonical served root and the
/// file's canonical path (`None` where it could not be made, the file not
/// existing): a file is served only where its path lies under the root,
/// component by component.
pub fn access(root: &str, target: Option<&str>) -> (r: Access)
    ensures
        r == access_spec(root@, match target {
            Some(t) => Some(t@),
            None => None,
        }),
{
    match target {
        None => Access::NotFound,
        Some(t) => if path_within(t, root) {
            Access::Allowed
        } else {
            Access::Forbidden
        },
    }
}

/// The answer when the requested path does not exist.
pub fn not_found_reply() -> (r: &'static str)
    ensures
        r@ == "HTTP/1.0 404 Not Found\r\nContent-Type: text/plain\r\n\r\n404 Not Found\n"@,
{
    "HTTP/1.0 404 Not Found\r\nContent-Type: text/plain\r\n\r\n404 Not Found\n"
}

/// The answer when the requested file cannot be read.
pub fn unreadable_reply() -> (r: &'static str)
    ensures
        r@ == "HTTP/1.0 404 Not Found\r\n\r\n404 Not Found\n"@,
{
    "HTTP/1.0 404 Not Found\r\n\r\n404 Not Found\n"
}

/// The answer when the requested path lies outside the home directory.
pub fn forbidden_reply() -> (r: &'static str)
    ensures
        r@ == "HTTP/1.0 403 Forbidden\r\n\r\n"@,
{
    "HTTP/1.0 403 Forbidden\r\n\r\n"
}

pub open spec fn listing_item(n: Seq<char>) -> Seq<char> {
    "<li><a href=\""@ + n + "\">"@ + n + "</a></li>\n"@
}

pub open spec fn listing_items(ns: Seq<Seq<char>>) -> Seq<char>
    decreases ns.len(),
{
    if ns.len() == 0 {
        seq![]
    } else {
        listing_items(ns.drop_last()) + listing_item(ns.last())
    }
}

/// The page listing a directory's entries, each a link to itself.
pub open spec fn listing_spec(ns: Seq<Seq<char>>) -> Seq<char> {
    "<html><body><ul>\n"@ + listing_items(ns) + "</ul></body></html>\n"@
}

/// The page listing the entries `names` of a directory.
pub fn listing_page(names: &[String]) -> (r: String)
    ensures
        r@ == listing_spec(views(names@)),
{
    let ghost nv = views(names@);
    let mut items: Vec<char> = Vec::new();
    let mut i: usize = 0;
    while i < names.len()
        invariant
            i <= names@.len(),
            nv == views(names@),
            items@ == listing_items(nv.take(i as int)),
        decreases names@.len() - i,
    {
        let n = chars_of(names[i].as_str());
        assert(nv[i as int] == n@);
        let ghost before = items@;
        push_str(&mut items, "<li><a href=\"");
        push_all(&mut items, n.as_slice());
        push_str(&mut items, "\">");
        push_all(&mut items, n.as_slice());
        push_str(&mut items, "</a></li>\n");
        assert(nv.take(i + 1).drop_last() =~= nv.take(i as int));
        assert(items@ =~= before + listing_item(n@));
        i = i + 1;
    }
    assert(nv.take(names@.len() as int) =~= nv);
    let mut out = chars_of("<html><body><ul>\n");
    push_all(&mut out, items.as_slice());
    push_str(&mut out, "</ul></body></html>\n");
    assert(out@ =~= listing_spec(nv));
    string_of(out.as_slice())
}


/// httpd serves a file (a `200` answer) only for a request line of at
/// least two words whose method is `GET` or `HEAD`, and only where the
/// file's canonical path lies under the canonical root; it sends the body
/// only for `GET`. Every other request gets a `400`, `405`, `404` or `403`
/// answer.
pub proof fn lemma_serves_only_under_root(line: Seq<char>, root: Seq<char>, target: Option<Seq<char>>)
    ensures
        (route_spec(line) is Serve && access_spec(root, target) == Access::Allowed) <==> (words(line).len() >= 2
            && (words(line)[0] == "GET"@ || words(line)[0] == "HEAD"@) && (target matches Some(t)
            && path_starts_with(t, root))),
        route_spec(line) matches RouteView::Serve { send_body, .. } ==> (send_body <==> words(line)[0] == "GET"@),
        !(route_spec(line) is Serve) ==> (route_spec(line) == RouteView::Reply(
            "HTTP/1.0 400 Bad Request\r\n\r\n"@,
        ) || route_spec(line) == RouteView::Reply("HTTP/1.0 405 Method Not Allowed\r\n\r\n"@)),
{
}

} // verus!
