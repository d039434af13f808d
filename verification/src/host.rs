//! The browser host's rules: its address, how requests are routed, which
//! session a request belongs to, and the content type of static files.
use vstd::prelude::*;

use crate::text::{
    chars_of, decimal, ends_with, has_prefix, has_suffix, owned, push_decimal, push_str, same_text,
    starts_with, string_of,
};

verus! {

pub const HOST_ADDR: &'static str = "127.0.0.1";

pub const HOST_PORT: u16 = 666;

/// The address of a host listening on `port`: the preferred port, or the
/// one it moved on to when another instance held that.
pub open spec fn host_address(port: u16) -> Seq<char> {
    "http://"@ + "127.0.0.1"@ + ":"@ + decimal(port as nat) + "/"@
}

/// The URL of the browser host listening on `port`.
pub fn host_url(port: u16) -> (r: String)
    ensures
        r@ == host_address(port),
{
    let mut out: Vec<char> = Vec::new();
    push_str(&mut out, "http://");
    push_str(&mut out, HOST_ADDR);
    push_str(&mut out, ":");
    push_decimal(&mut out, port as u64);
    push_str(&mut out, "/");
    string_of(&out)
}

/// The port to try when `port` is taken by another instance: the next one,
/// while there is one.
pub fn next_host_port(port: u16) -> (r: Option<u16>)
    ensures
        port < u16::MAX ==> r == Some((port + 1) as u16),
        port == u16::MAX ==> r is None,
{
    if port < u16::MAX {
        Some(port + 1)
    } else {
        None
    }
}

/// The content type served for a static file, by its ending.
pub open spec fn mime_type(path: Seq<char>) -> Seq<char> {
    if has_suffix(path, ".js"@) {
        "text/javascript; charset=utf-8"@
    } else if has_suffix(path, ".css"@) {
        "text/css; charset=utf-8"@
    } else if has_suffix(path, ".svg"@) {
        "image/svg+xml"@
    } else if has_suffix(path, ".html"@) {
        "text/html; charset=utf-8"@
    } else {
        "application/octet-stream"@
    }
}

fn text_ends_with(s: &str, suffix: &str) -> (b: bool)
    ensures
        b == has_suffix(s@, suffix@),
{
    ends_with(&chars_of(s), &chars_of(suffix))
}

pub fn mime_for(path: &str) -> (r: &'static str)
    ensures
        r@ == mime_type(path@),
{
    if text_ends_with(path, ".js") {
        "text/javascript; charset=utf-8"
    } else if text_ends_with(path, ".css") {
        "text/css; charset=utf-8"
    } else if text_ends_with(path, ".svg") {
        "image/svg+xml"
    } else if text_ends_with(path, ".html") {
        "text/html; charset=utf-8"
    } else {
        "application/octet-stream"
    }
}

/// Position of the first `c` in `s` at or after `i`, or `s.len()`.
pub open spec fn first_index_from(s: Seq<char>, c: char, i: int) -> int
    decreases s.len() - i,
{
    if i < 0 || i >= s.len() {
        s.len() as int
    } else if s[i] == c {
        i
    } else {
        first_index_from(s, c, i + 1)
    }
}

/// A request URL's path: what comes before the first `?`.
pub open spec fn url_path(url: Seq<char>) -> Seq<char> {
    url.take(first_index_from(url, '?', 0))
}

proof fn lemma_first_index_bound(s: Seq<char>, c: char, i: int)
    requires
        0 <= i <= s.len(),
    ensures
        i <= first_index_from(s, c, i) <= s.len(),
    decreases s.len() - i,
{
    if i < s.len() && s[i] != c {
        lemma_first_index_bound(s, c, i + 1);
    }
}

pub fn request_path(url: &str) -> (r: String)
    ensures
        r@ == url_path(url@),
{
    let cs = chars_of(url);
    let mut k: usize = 0;
    while k < cs.len() && cs[k] != '?'
        invariant
            k <= cs.len(),
            first_index_from(cs@, '?', 0) == first_index_from(cs@, '?', k as int),
        decreases cs.len() - k,
    {
        k = k + 1;
    }
    let mut out: Vec<char> = Vec::new();
    let mut m: usize = 0;
    while m < k
        invariant
            m <= k <= cs.len(),
            out@ == cs@.take(m as int),
        decreases k - m,
    {
        out.push(cs[m]);
        m = m + 1;
        assert(out@ == cs@.take(m as int));
    }
    string_of(&out)
}

/// `s` without its leading slashes.
pub open spec fn strip_leading_slashes(s: Seq<char>) -> Seq<char>
    decreases s.len(),
{
    if s.len() > 0 && s[0] == '/' {
        strip_leading_slashes(s.drop_first())
    } else {
        s
    }
}

/// The embedded file a static request asks for: the path without leading
/// slashes, `index.html` for the root.
pub open spec fn asset_name(path: Seq<char>) -> Seq<char> {
    let a = strip_leading_slashes(path);
    if a.len() == 0 {
        "index.html"@
    } else {
        a
    }
}

pub fn asset_path(path: &str) -> (r: String)
    ensures
        r@ == asset_name(path@),
{
    let cs = chars_of(path);
    let mut k: usize = 0;
    assert(cs@.skip(0) == cs@);
    while k < cs.len() && cs[k] == '/'
        invariant
            k <= cs.len(),
            strip_leading_slashes(cs@) == strip_leading_slashes(cs@.skip(k as int)),
        decreases cs.len() - k,
    {
        assert(cs@.skip(k as int).drop_first() == cs@.skip(k + 1));
        k = k + 1;
    }
    if k == cs.len() {
        assert(cs@.skip(k as int).len() == 0);
        return owned("index.html");
    }
    let mut out: Vec<char> = Vec::new();
    let mut m: usize = k;
    while m < cs.len()
        invariant
            k <= m <= cs.len(),
            out@ == cs@.subrange(k as int, m as int),
        decreases cs.len() - m,
    {
        out.push(cs[m]);
        m = m + 1;
        assert(out@ == cs@.subrange(k as int, m as int));
    }
    assert(cs@.skip(k as int) == cs@.subrange(k as int, cs.len() as int));
    string_of(&out)
}

/// Request methods the host tells apart.
#[derive(PartialEq, Eq, Structural, Clone, Copy, Debug)]
pub enum Method {
    Get,
    Post,
    Other,
}

/// What a request is answered with.
#[derive(PartialEq, Eq, Structural, Clone, Copy, Debug)]
pub enum Route {
    HostInfo,
    DefaultSettings,
    SessionInit,
    SessionDefault,
    SettingsSave,
    CatalogCount,
    Query,
    ScanStart,
    ScanCancel,
    ScanProgress,
    OpenFile,
    OpenPlaylist,
    /// An `/api/` path that names nothing: 404.
    ApiNotFound,
    /// A file of the front end.
    Static,
    /// 405.
    MethodNotAllowed,
}

/// The route for a method and path.
pub open spec fn route_for(method: Method, path: Seq<char>) -> Route {
    if method == Method::Get && path == "/api/host/info"@ {
        Route::HostInfo
    } else if method == Method::Get && path == "/api/default-settings"@ {
        Route::DefaultSettings
    } else if method == Method::Post && path == "/api/session/init"@ {
        Route::SessionInit
    } else if method == Method::Post && path == "/api/session/default"@ {
        Route::SessionDefault
    } else if method == Method::Post && path == "/api/settings/save"@ {
        Route::SettingsSave
    } else if method == Method::Get && path == "/api/catalog/count"@ {
        Route::CatalogCount
    } else if method == Method::Post && path == "/api/query"@ {
        Route::Query
    } else if method == Method::Post && path == "/api/scan/start"@ {
        Route::ScanStart
    } else if method == Method::Post && path == "/api/scan/cancel"@ {
        Route::ScanCancel
    } else if method == Method::Get && path == "/api/scan/progress"@ {
        Route::ScanProgress
    } else if method == Method::Post && path == "/api/open/file"@ {
        Route::OpenFile
    } else if method == Method::Post && path == "/api/open/playlist"@ {
        Route::OpenPlaylist
    } else if (method == Method::Get || method == Method::Post) && has_prefix(path, "/api/"@) {
        Route::ApiNotFound
    } else if method == Method::Get {
        Route::Static
    } else {
        Route::MethodNotAllowed
    }
}

/// Whether `(method, path)` is one of the API's endpoints, under the method
/// the front end uses for it.
pub open spec fn is_endpoint(method: Method, path: Seq<char>) -> bool {
    (method == Method::Get && path == "/api/host/info"@)
        || (method == Method::Get && path == "/api/default-settings"@)
        || (method == Method::Post && path == "/api/session/init"@)
        || (method == Method::Post && path == "/api/session/default"@)
        || (method == Method::Post && path == "/api/settings/save"@)
        || (method == Method::Get && path == "/api/catalog/count"@)
        || (method == Method::Post && path == "/api/query"@)
        || (method == Method::Post && path == "/api/scan/start"@)
        || (method == Method::Post && path == "/api/scan/cancel"@)
        || (method == Method::Get && path == "/api/scan/progress"@)
        || (method == Method::Post && path == "/api/open/file"@)
        || (method == Method::Post && path == "/api/open/playlist"@)
}

/// Each API endpoint is reached exactly by its own method and path; any
/// other GET or POST under `/api/` is answered "not found"; any other GET is
/// a file of the front end; anything else is a method not allowed.
pub proof fn each_endpoint_has_its_route(method: Method, path: Seq<char>)
    ensures
        (route_for(method, path) == Route::HostInfo <==> (method == Method::Get && path == "/api/host/info"@)),
        (route_for(method, path) == Route::DefaultSettings <==> (method == Method::Get && path == "/api/default-settings"@)),
        (route_for(method, path) == Route::SessionInit <==> (method == Method::Post && path == "/api/session/init"@)),
        (route_for(method, path) == Route::SessionDefault <==> (method == Method::Post && path == "/api/session/default"@)),
        (route_for(method, path) == Route::SettingsSave <==> (method == Method::Post && path == "/api/settings/save"@)),
        (route_for(method, path) == Route::CatalogCount <==> (method == Method::Get && path == "/api/catalog/count"@)),
        (route_for(method, path) == Route::Query <==> (method == Method::Post && path == "/api/query"@)),
        (route_for(method, path) == Route::ScanStart <==> (method == Method::Post && path == "/api/scan/start"@)),
        (route_for(method, path) == Route::ScanCancel <==> (method == Method::Post && path == "/api/scan/cancel"@)),
        (route_for(method, path) == Route::ScanProgress <==> (method == Method::Get && path == "/api/scan/progress"@)),
        (route_for(method, path) == Route::OpenFile <==> (method == Method::Post && path == "/api/open/file"@)),
        (route_for(method, path) == Route::OpenPlaylist <==> (method == Method::Post && path == "/api/open/playlist"@)),
        (route_for(method, path) == Route::ApiNotFound <==> ((method == Method::Get || method
            == Method::Post) && has_prefix(path, "/api/"@) && !is_endpoint(method, path))),
        (route_for(method, path) == Route::Static <==> (method == Method::Get && !has_prefix(
            path,
            "/api/"@,
        ))),
        (route_for(method, path) == Route::MethodNotAllowed <==> (method == Method::Other || (
        method == Method::Post && !has_prefix(path, "/api/"@)))),
{
    reveal_strlit("/api/host/info");
    reveal_strlit("/api/default-settings");
    reveal_strlit("/api/session/init");
    reveal_strlit("/api/session/default");
    reveal_strlit("/api/settings/save");
    reveal_strlit("/api/catalog/count");
    reveal_strlit("/api/query");
    reveal_strlit("/api/scan/start");
    reveal_strlit("/api/scan/cancel");
    reveal_strlit("/api/scan/progress");
    reveal_strlit("/api/open/file");
    reveal_strlit("/api/open/playlist");
    reveal_strlit("/api/");
    assert("/api/host/info"@.len() == 14 && "/api/host/info"@[5] == 'h' && "/api/host/info"@[6] == 'o');
    assert("/api/default-settings"@.len() == 21 && "/api/default-settings"@[5] == 'd' && "/api/default-settings"@[6] == 'e');
    assert("/api/session/init"@.len() == 17 && "/api/session/init"@[5] == 's' && "/api/session/init"@[6] == 'e');
    assert("/api/session/default"@.len() == 20 && "/api/session/default"@[5] == 's' && "/api/session/default"@[6] == 'e');
    assert("/api/settings/save"@.len() == 18 && "/api/settings/save"@[5] == 's' && "/api/settings/save"@[6] == 'e');
    assert("/api/catalog/count"@.len() == 18 && "/api/catalog/count"@[5] == 'c' && "/api/catalog/count"@[6] == 'a');
    assert("/api/query"@.len() == 10 && "/api/query"@[5] == 'q' && "/api/query"@[6] == 'u');
    assert("/api/scan/start"@.len() == 15 && "/api/scan/start"@[5] == 's' && "/api/scan/start"@[6] == 'c');
    assert("/api/scan/cancel"@.len() == 16 && "/api/scan/cancel"@[5] == 's' && "/api/scan/cancel"@[6] == 'c');
    assert("/api/scan/progress"@.len() == 18 && "/api/scan/progress"@[5] == 's' && "/api/scan/progress"@[6] == 'c');
    assert("/api/open/file"@.len() == 14 && "/api/open/file"@[5] == 'o' && "/api/open/file"@[6] == 'p');
    assert(has_prefix("/api/host/info"@, "/api/"@)) by { assert("/api/host/info"@.take(5) =~= "/api/"@); }
    assert(has_prefix("/api/default-settings"@, "/api/"@)) by { assert("/api/default-settings"@.take(5) =~= "/api/"@); }
    assert(has_prefix("/api/session/init"@, "/api/"@)) by { assert("/api/session/init"@.take(5) =~= "/api/"@); }
    assert(has_prefix("/api/session/default"@, "/api/"@)) by { assert("/api/session/default"@.take(5) =~= "/api/"@); }
    assert(has_prefix("/api/settings/save"@, "/api/"@)) by { assert("/api/settings/save"@.take(5) =~= "/api/"@); }
    assert(has_prefix("/api/catalog/count"@, "/api/"@)) by { assert("/api/catalog/count"@.take(5) =~= "/api/"@); }
    assert(has_prefix("/api/query"@, "/api/"@)) by { assert("/api/query"@.take(5) =~= "/api/"@); }
    assert(has_prefix("/api/scan/start"@, "/api/"@)) by { assert("/api/scan/start"@.take(5) =~= "/api/"@); }
    assert(has_prefix("/api/scan/cancel"@, "/api/"@)) by { assert("/api/scan/cancel"@.take(5) =~= "/api/"@); }
    assert(has_prefix("/api/scan/progress"@, "/api/"@)) by { assert("/api/scan/progress"@.take(5) =~= "/api/"@); }
    assert(has_prefix("/api/open/file"@, "/api/"@)) by { assert("/api/open/file"@.take(5) =~= "/api/"@); }
    assert(has_prefix("/api/open/playlist"@, "/api/"@)) by { assert("/api/open/playlist"@.take(5) =~= "/api/"@); }
    assert("/api/open/playlist"@.len() == 18 && "/api/open/playlist"@[5] == 'o' && "/api/open/playlist"@[6] == 'p');
}

pub fn route(method: Method, path: &str) -> (r: Route)
    ensures
        r == route_for(method, path@),
{
    let get = method == Method::Get;
    let post = method == Method::Post;
    if get && same_text(path, "/api/host/info") {
        Route::HostInfo
    } else if get && same_text(path, "/api/default-settings") {
        Route::DefaultSettings
    } else if post && same_text(path, "/api/session/init") {
        Route::SessionInit
    } else if post && same_text(path, "/api/session/default") {
        Route::SessionDefault
    } else if post && same_text(path, "/api/settings/save") {
        Route::SettingsSave
    } else if get && same_text(path, "/api/catalog/count") {
        Route::CatalogCount
    } else if post && same_text(path, "/api/query") {
        Route::Query
    } else if post && same_text(path, "/api/scan/start") {
        Route::ScanStart
    } else if post && same_text(path, "/api/scan/cancel") {
        Route::ScanCancel
    } else if get && same_text(path, "/api/scan/progress") {
        Route::ScanProgress
    } else if post && same_text(path, "/api/open/file") {
        Route::OpenFile
    } else if post && same_text(path, "/api/open/playlist") {
        Route::OpenPlaylist
    } else if (get || post) && starts_with(&chars_of(path), &chars_of("/api/")) {
        Route::ApiNotFound
    } else if get {
        Route::Static
    } else {
        Route::MethodNotAllowed
    }
}

/// Whether a route acts for a browser session (and so needs the
/// `X-Session-Id` header).
pub open spec fn needs_session(r: Route) -> bool {
    r == Route::SettingsSave || r == Route::CatalogCount || r == Route::Query || r
        == Route::ScanStart || r == Route::ScanCancel || r == Route::ScanProgress || r
        == Route::OpenPlaylist
}

pub fn route_needs_session(r: Route) -> (b: bool)
    ensures
        b == needs_session(r),
{
    r == Route::SettingsSave || r == Route::CatalogCount || r == Route::Query || r
        == Route::ScanStart || r == Route::ScanCancel || r == Route::ScanProgress || r
        == Route::OpenPlaylist
}

/// An error answer: HTTP status and message.
#[derive(Debug)]
pub struct HttpError {
    pub status: u16,
    pub message: String,
}

/// The session a request names: a missing or empty `X-Session-Id` is
/// answered with 401.
pub fn session_gate(session_id: Option<String>) -> (r: Result<String, HttpError>)
    ensures
        match session_id {
            Some(id) => if id@.len() > 0 {
                r matches Ok(x) && x@ == id@
            } else {
                r matches Err(e) && e.status == 401 && e.message@ == "Missing X-Session-Id"@
            },
            None => r matches Err(e) && e.status == 401 && e.message@ == "Missing X-Session-Id"@,
        },
{
    match session_id {
        Some(id) => if id.as_str().is_empty() {
            Err(HttpError { status: 401, message: owned("Missing X-Session-Id") })
        } else {
            Ok(id)
        },
        None => Err(HttpError { status: 401, message: owned("Missing X-Session-Id") }),
    }
}

/// A session id that names no session: 404.
pub fn unknown_session() -> (e: HttpError)
    ensures
        e.status == 404,
        e.message@ == "Session not found"@,
{
    HttpError { status: 404, message: owned("Session not found") }
}

/// An `/api/` path that names nothing: 404.
pub fn api_not_found() -> (e: HttpError)
    ensures
        e.status == 404,
        e.message@ == "Not found"@,
{
    HttpError { status: 404, message: owned("Not found") }
}

/// A method other than GET or POST: 405.
pub fn method_not_allowed() -> (e: HttpError)
    ensures
        e.status == 405,
        e.message@ == "Method not allowed"@,
{
    HttpError { status: 405, message: owned("Method not allowed") }
}

/// The value of the first header whose name is exactly `name`.
pub open spec fn header_lookup(headers: Seq<(String, String)>, name: Seq<char>) -> Option<Seq<char>>
    decreases headers.len(),
{
    if headers.len() == 0 {
        None
    } else if headers[0].0@ == name {
        Some(headers[0].1@)
    } else {
        header_lookup(headers.drop_first(), name)
    }
}

pub fn header_value(headers: &Vec<(String, String)>, name: &str) -> (r: Option<String>)
    ensures
        match header_lookup(headers@, name@) {
            Some(v) => r matches Some(x) && x@ == v,
            None => r is None,
        },
{
    let mut i: usize = 0;
    assert(headers@.skip(0) == headers@);
    while i < headers.len()
        invariant
            i <= headers.len(),
            header_lookup(headers@, name@) == header_lookup(headers@.skip(i as int), name@),
        decreases headers.len() - i,
    {
        if same_text(headers[i].0.as_str(), name) {
            return Some(owned(headers[i].1.as_str()));
        }
        assert(headers@.skip(i as int).drop_first() == headers@.skip(i + 1));
        i = i + 1;
    }
    None
}

} // verus!
