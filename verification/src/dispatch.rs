use vstd::prelude::*;
use vstd::slice::slice_subrange;
use vstd::string::StringSliceAdditionalSpecFns;
use crate::bytes::{
    find_byte, find_from, has_prefix, owned, same_bytes, starts_with, trim, trimmed, unquote,
    unquoted,
};
use crate::config::RouteConfig;
use crate::headers::{pairs, Header, HeaderMap};
use crate::number::{dec_digits, to_decimal};
use crate::paths::{file_name_of, held, path_file_name};
use crate::request::{multipart_of, HttpRequest, MultipartForm, RequestView, UploadedFile};
use crate::response::{bytes_response, get_mime_type, mime_of, plain_response};
use crate::routing::{
    allows_method, is_best_route, is_script, method_allowed, names_script, no_route,
    relative_path, relative_to, select_route, split_uri, try_serve_upload_file,
    upload_target_from, uri_path,
};

verus! {

/// What the last component of a named path says about the file name.
pub enum NameHint {
    /// The component is blank: look at the next part.
    Skip,
    /// The path has no last component: there is no name.
    Stop,
    /// The file has this name.
    Name(Vec<u8>),
}

/// Judges the last component of the path that a part names: none ends the
/// search, a blank one is passed over, any other is the name, without
/// surrounding white space.
pub fn name_hint(component: Option<Vec<u8>>) -> (r: NameHint)
    ensures
        match component {
            None => r == NameHint::Stop,
            Some(n) => if trim(n@).len() > 0 {
                match r {
                    NameHint::Name(t) => t@ == trim(n@),
                    _ => false,
                }
            } else {
                r == NameHint::Skip
            },
        },
{
    match component {
        None => NameHint::Stop,
        Some(n) => {
            let t = trimmed(n.as_slice());
            if t.len() > 0 {
                NameHint::Name(t)
            } else {
                NameHint::Skip
            }
        },
    }
}

/// The text behind `filename=` in one part of a `Content-Disposition` value,
/// without surrounding white space and quotes, where the part begins so.
pub open spec fn named_in_part(part: Seq<u8>) -> Option<Seq<u8>> {
    let key = "filename=".spec_bytes();
    if has_prefix(trim(part), key) {
        Some(unquoted(trim(part).skip(key.len() as int)))
    } else {
        None
    }
}

/// The text behind `filename=` in one part of a `Content-Disposition` value.
pub fn read_named_in_part(part: &[u8]) -> (r: Option<Vec<u8>>)
    ensures
        held(r) == named_in_part(part@),
{
    let key = "filename=".as_bytes();
    let t = trimmed(part);
    if starts_with(t.as_slice(), key) {
        let rest = slice_subrange(t.as_slice(), key.len(), t.len());
        proof {
            assert(rest@ =~= t@.skip(key@.len() as int));
        }
        Some(unquote(rest))
    } else {
        None
    }
}

/// The file name that a `Content-Disposition` value gives, from `pos` on: that
/// of the first part, split at semicolons, that begins with `filename=` and
/// whose last path component is not blank. A part whose text has no last
/// component ends the search without a name.
pub open spec fn disposition_name_from(d: Seq<u8>, pos: int) -> Option<Seq<u8>>
    decreases d.len() - pos,
{
    if pos < 0 || pos > d.len() {
        None
    } else {
        let end = match find_from(d, seq![59u8], pos) {
            Some(c) => c,
            None => d.len() as int,
        };
        let later = match find_from(d, seq![59u8], pos) {
            Some(c) => disposition_name_from(d, c + 1),
            None => None,
        };
        match named_in_part(d.subrange(pos, end)) {
            Some(text) => match file_name_of(text) {
                None => None,
                Some(n) => if trim(n).len() > 0 {
                    Some(trim(n))
                } else {
                    later
                },
            },
            None => later,
        }
    }
}

/// The file name that a `Content-Disposition` value gives.
pub fn extract_filename_from_disposition(disposition: &[u8]) -> (r: Option<Vec<u8>>)
    ensures
        held(r) == disposition_name_from(disposition@, 0),
{
    let mut pos: usize = 0;
    loop
        invariant
            pos <= disposition@.len(),
            disposition_name_from(disposition@, 0) == disposition_name_from(
                disposition@,
                pos as int,
            ),
        decreases disposition@.len() - pos,
    {
        let found = find_byte(disposition, 59u8, pos);
        let end = match found {
            Some(c) => c,
            None => disposition.len(),
        };
        match read_named_in_part(slice_subrange(disposition, pos, end)) {
            Some(text) => {
                match name_hint(path_file_name(text.as_slice())) {
                    NameHint::Stop => {
                        return None;
                    },
                    NameHint::Name(t) => {
                        return Some(t);
                    },
                    NameHint::Skip => {},
                }
            },
            None => {},
        }
        match found {
            Some(c) => {
                pos = c + 1;
            },
            None => {
                return None;
            },
        }
    }
}

/// A name without surrounding white space, where that leaves anything.
pub open spec fn usable(name: Option<Seq<u8>>) -> Option<Seq<u8>> {
    match name {
        Some(n) => if trim(n).len() > 0 {
            Some(trim(n))
        } else {
            None
        },
        None => None,
    }
}

/// The name under which a raw body is stored: the name from the headers where
/// there is one; else the last segment of the request path, unless it is blank
/// or the route's own last segment; else `upload.bin`.
pub open spec fn chosen_name(
    from_headers: Option<Seq<u8>>,
    request_name: Option<Seq<u8>>,
    route_name: Option<Seq<u8>>,
) -> Seq<u8> {
    match from_headers {
        Some(n) => n,
        None => match usable(request_name) {
            Some(n) => if usable(route_name) == Some(n) {
                "upload.bin".spec_bytes()
            } else {
                n
            },
            None => "upload.bin".spec_bytes(),
        },
    }
}

/// A name without surrounding white space, where that leaves anything.
fn usable_name(name: Option<Vec<u8>>) -> (r: Option<Vec<u8>>)
    ensures
        held(r) == usable(held(name)),
{
    match name {
        Some(n) => {
            let t = trimmed(n.as_slice());
            if t.len() > 0 {
                Some(t)
            } else {
                None
            }
        },
        None => None,
    }
}

/// The name under which a raw body is stored, from the name that the headers
/// give and the last segments of the request path and of the route's path.
pub fn choose_upload_name(
    from_headers: Option<Vec<u8>>,
    request_name: Option<Vec<u8>>,
    route_name: Option<Vec<u8>>,
) -> (r: Vec<u8>)
    ensures
        r@ == chosen_name(held(from_headers), held(request_name), held(route_name)),
{
    match from_headers {
        Some(n) => n,
        None => {
            let rq = usable_name(request_name);
            let rt = usable_name(route_name);
            match rq {
                Some(n) => {
                    let same = match rt {
                        Some(m) => same_bytes(m.as_slice(), n.as_slice()),
                        None => false,
                    };
                    if same {
                        owned("upload.bin".as_bytes())
                    } else {
                        n
                    }
                },
                None => owned("upload.bin".as_bytes()),
            }
        },
    }
}

/// The name under which the raw body of a request is stored.
pub open spec fn upload_name(
    path: Seq<u8>,
    route_path: Seq<u8>,
    headers: Map<Seq<u8>, Seq<u8>>,
) -> Seq<u8> {
    let key = "content-disposition".spec_bytes();
    chosen_name(
        if headers.contains_key(key) {
            disposition_name_from(headers[key], 0)
        } else {
            None
        },
        file_name_of(path),
        file_name_of(route_path),
    )
}

/// The name under which the raw body of a request is stored.
pub fn extract_raw_upload_filename(request_path: &[u8], route_path: &[u8], headers: &HeaderMap)
    -> (r: Vec<u8>)
    ensures
        r@ == upload_name(request_path@, route_path@, headers@),
{
    let from_headers = match headers.get("content-disposition".as_bytes()) {
        Some(d) => extract_filename_from_disposition(d.as_slice()),
        None => None,
    };
    let request_name = path_file_name(request_path);
    let route_name = path_file_name(route_path);
    choose_upload_name(from_headers, request_name, route_name)
}

/// The files of a form under the last components of their names, from file
/// `i` on and behind `acc`, up to the first whose name has none; and whether
/// every file had one.
pub open spec fn stored_from(
    files: Seq<(Seq<u8>, Seq<u8>)>,
    i: int,
    acc: Seq<(Seq<u8>, Seq<u8>)>,
) -> (Seq<(Seq<u8>, Seq<u8>)>, bool)
    decreases files.len() - i,
{
    if i < 0 || i >= files.len() {
        (acc, true)
    } else {
        match file_name_of(files[i].0) {
            Some(n) => stored_from(files, i + 1, acc.push((n, files[i].1))),
            None => (acc, false),
        }
    }
}

/// The files of a form under the last components of their names.
pub fn sanitize_files(form: MultipartForm) -> (r: (Vec<UploadedFile>, bool))
    ensures
        (r.0@.map_values(|f: UploadedFile| f@), r.1) == stored_from(form@, 0, Seq::empty()),
{
    let mut out: Vec<UploadedFile> = Vec::new();
    let files = &form.files;
    let ghost all = form@;
    let mut i: usize = 0;
    proof {
        assert(out@.map_values(|f: UploadedFile| f@) =~= Seq::empty());
    }
    while i < files.len()
        invariant
            i <= files@.len(),
            all == form@,
            files@ == form.files@,
            stored_from(all, 0, Seq::empty()) == stored_from(
                all,
                i as int,
                out@.map_values(|f: UploadedFile| f@),
            ),
        decreases files.len() - i,
    {
        let ghost before = out@.map_values(|f: UploadedFile| f@);
        match path_file_name(files[i].file_name.as_slice()) {
            Some(n) => {
                let data = owned(files[i].data.as_slice());
                out.push(UploadedFile { file_name: n, data });
                proof {
                    assert(out@.map_values(|f: UploadedFile| f@) =~= before.push((n@, data@)));
                }
            },
            None => {
                return (out, false);
            },
        }
        i += 1;
    }
    (out, true)
}

/// What to do with a request once it is read.
pub enum Plan {
    /// Answer with an error page for `code`.
    Reject { code: u16 },
    /// Send the uploaded file `rel` below `dir`: 403 where it is a directory,
    /// 404 where it cannot be read.
    ServeUploaded { dir: Vec<u8>, rel: Vec<u8> },
    /// Write `files` into the upload directory, which is `dir`, or `uploads`
    /// below `dir` where `below_root` holds, and answer 201. Where `complete`
    /// is false or a write fails, go on as for `Serve`.
    Store {
        route: usize,
        dir: Vec<u8>,
        below_root: bool,
        files: Vec<UploadedFile>,
        complete: bool,
        rel: Vec<u8>,
    },
    /// Serve what lies at `rel` below the root of route `route`.
    Serve { route: usize, rel: Vec<u8> },
}

/// What is to be stored for a request under a route.
pub struct Storing {
    pub dir: Seq<u8>,
    pub below_root: bool,
    pub files: Seq<(Seq<u8>, Seq<u8>)>,
    pub complete: bool,
}

/// Whether a method is `GET`.
pub open spec fn is_get(method: Seq<u8>) -> bool {
    method == "GET".spec_bytes()
}

/// Whether a request asks to store its body: `POST` or `PUT` on a path that
/// names no script.
pub open spec fn wants_upload(route: RouteConfig, method: Seq<u8>, path: Seq<u8>) -> bool {
    (method == "POST".spec_bytes() || method == "PUT".spec_bytes()) && !is_script(route, path)
}

/// What is to be stored for a request under a route, if anything: the files of
/// a form, or else a body that is not empty, under one name.
pub open spec fn storing(route: RouteConfig, q: RequestView) -> Option<Storing> {
    let path = uri_path(q.uri);
    let dir = match route.upload_dir {
        Some(d) => d@,
        None => route.root@,
    };
    let below_root = route.upload_dir.is_none();
    if !wants_upload(route, q.method, path) {
        None
    } else {
        match multipart_of(q.headers, q.body) {
            Some(files) => Some(
                Storing {
                    dir,
                    below_root,
                    files: stored_from(files, 0, Seq::empty()).0,
                    complete: stored_from(files, 0, Seq::empty()).1,
                },
            ),
            None => if q.body.len() > 0 {
                Some(
                    Storing {
                        dir,
                        below_root,
                        files: seq![(upload_name(path, route.path@, q.headers), q.body)],
                        complete: true,
                    },
                )
            } else {
                None
            },
        }
    }
}

/// The uploaded file that a request asks for ahead of routing: only for `GET`.
pub open spec fn early_target(routes: Seq<RouteConfig>, q: RequestView) -> Option<
    (Seq<u8>, Seq<u8>),
> {
    if is_get(q.method) {
        upload_target_from(routes, 0, uri_path(q.uri))
    } else {
        None
    }
}

/// Whether `plan` is what the routes ask for the request `q`.
pub open spec fn plan_fits(routes: Seq<RouteConfig>, q: RequestView, plan: Plan) -> bool {
    let path = uri_path(q.uri);
    match plan {
        Plan::ServeUploaded { dir, rel } => early_target(routes, q) == Some((dir@, rel@)),
        Plan::Reject { code } => early_target(routes, q).is_none() && if code == 404 {
            no_route(routes, path)
        } else {
            code == 405 && exists|i: int| #[trigger]
                is_best_route(routes, path, i) && !method_allowed(routes[i].methods@, q.method)
        },
        Plan::Store { route, dir, below_root, files, complete, rel } => {
            &&& early_target(routes, q).is_none()
            &&& is_best_route(routes, path, route as int)
            &&& method_allowed(routes[route as int].methods@, q.method)
            &&& storing(routes[route as int], q) == Some(
                Storing {
                    dir: dir@,
                    below_root,
                    files: files@.map_values(|f: UploadedFile| f@),
                    complete,
                },
            )
            &&& rel@ == relative_to(path, routes[route as int].path@)
        },
        Plan::Serve { route, rel } => {
            &&& early_target(routes, q).is_none()
            &&& is_best_route(routes, path, route as int)
            &&& method_allowed(routes[route as int].methods@, q.method)
            &&& storing(routes[route as int], q).is_none()
            &&& rel@ == relative_to(path, routes[route as int].path@)
        },
    }
}

/// Decides what to do with a request: serve an uploaded file, reject it (404
/// where no route matches, 405 where the route does not let the method
/// through), store its body, or serve what lies under the route.
pub fn plan_request(routes: &Vec<RouteConfig>, req: &HttpRequest) -> (r: Plan)
    ensures
        plan_fits(routes@, req@, r),
{
    let (path, _) = split_uri(req.uri.as_slice());
    if same_bytes(req.method.as_slice(), "GET".as_bytes()) {
        match try_serve_upload_file(routes, path.as_slice()) {
            Some(t) => {
                return Plan::ServeUploaded { dir: t.0, rel: t.1 };
            },
            None => {},
        }
    }
    let route = match select_route(routes, path.as_slice()) {
        Some(i) => i,
        None => {
            return Plan::Reject { code: 404 };
        },
    };
    let cfg = &routes[route];
    if !allows_method(cfg, req.method.as_slice()) {
        return Plan::Reject { code: 405 };
    }
    let rel = relative_path(path.as_slice(), cfg.path.as_slice());
    let upload = (same_bytes(req.method.as_slice(), "POST".as_bytes()) || same_bytes(
        req.method.as_slice(),
        "PUT".as_bytes(),
    )) && !names_script(cfg, path.as_slice());
    if !upload {
        return Plan::Serve { route, rel };
    }
    let (dir, below_root) = match &cfg.upload_dir {
        Some(d) => (owned(d.as_slice()), false),
        None => (owned(cfg.root.as_slice()), true),
    };
    match HttpRequest::parse_multipart(&req.headers, req.body.as_slice()) {
        Some(form) => {
            let (files, complete) = sanitize_files(form);
            Plan::Store { route, dir, below_root, files, complete, rel }
        },
        None => {
            if req.body.len() > 0 {
                let name = extract_raw_upload_filename(
                    path.as_slice(),
                    cfg.path.as_slice(),
                    &req.headers,
                );
                let mut files: Vec<UploadedFile> = Vec::new();
                files.push(UploadedFile { file_name: name, data: owned(req.body.as_slice()) });
                proof {
                    assert(files@.map_values(|f: UploadedFile| f@) =~= seq![
                        (upload_name(path@, cfg.path@, req@.headers), req@.body),
                    ]);
                }
                Plan::Store { route, dir, below_root, files, complete: true, rel }
            } else {
                Plan::Serve { route, rel }
            }
        },
    }
}

/// What to do with the file that a request resolves to.
pub enum ServeStep {
    /// Answer with an error page for `code`.
    Reject { code: u16 },
    /// Run the script; `with_index` says that it is the route's index file
    /// below the resolved directory.
    RunScript { with_index: bool },
    /// Send the file; `with_index` as above.
    SendFile { with_index: bool },
}

/// Decides how to serve a resolved path. A directory is served by the route's
/// index file; without one it is refused, with 501 where the route asks for a
/// listing and 403 otherwise. What is left is run where the request path names
/// a script, and sent otherwise.
pub fn serve_step(route: &RouteConfig, path: &[u8], is_dir: bool) -> (r: ServeStep)
    ensures
        r == if is_dir && route.index.is_none() {
            ServeStep::Reject {
                code: if route.autoindex {
                    501u16
                } else {
                    403u16
                },
            }
        } else if is_script(*route, path@) {
            ServeStep::RunScript { with_index: is_dir }
        } else {
            ServeStep::SendFile { with_index: is_dir }
        },
{
    if is_dir && route.index.is_none() {
        if route.autoindex {
            ServeStep::Reject { code: 501 }
        } else {
            ServeStep::Reject { code: 403 }
        }
    } else if names_script(route, path) {
        ServeStep::RunScript { with_index: is_dir }
    } else {
        ServeStep::SendFile { with_index: is_dir }
    }
}

/// What was found at the place of a file that is to be sent.
pub enum Found<'a> {
    /// A directory.
    Directory,
    /// A file with this content.
    File(&'a [u8]),
    /// Nothing that can be read.
    Nothing,
}

/// What to answer once the place of a file was looked at.
pub enum Answer {
    /// Send this response.
    Respond(Vec<u8>),
    /// Answer with an error page for `code`.
    Reject { code: u16 },
}

/// Answers a request for the file at `path`: its content with the media type
/// that goes with the path, 403 for a directory, 404 for nothing readable.
pub fn answer_file(path: &[u8], found: Found<'_>) -> (r: Answer)
    ensures
        match found {
            Found::Directory => r == (Answer::Reject { code: 403 }),
            Found::Nothing => r == (Answer::Reject { code: 404 }),
            Found::File(content) => match r {
                Answer::Respond(bytes) => bytes@ == plain_response(
                    200,
                    content@,
                    mime_of(path@),
                ),
                Answer::Reject { .. } => false,
            },
        },
{
    match found {
        Found::Directory => Answer::Reject { code: 403 },
        Found::Nothing => Answer::Reject { code: 404 },
        Found::File(content) => Answer::Respond(bytes_response(200, content, get_mime_type(path))),
    }
}

/// Whether the files of a `Store` plan count as stored, so that the request
/// is answered with 201: every file had a name and every write went through.
pub fn upload_performed(complete: bool, written: bool) -> (r: bool)
    ensures
        r == (complete && written),
{
    complete && written
}

/// The variables that a script is run with.
pub open spec fn script_environment(q: RequestView, script: Seq<u8>, query: Seq<u8>) -> Seq<
    (Seq<u8>, Seq<u8>),
> {
    let fixed = seq![
        ("REQUEST_METHOD".spec_bytes(), q.method),
        ("SCRIPT_FILENAME".spec_bytes(), script),
        ("PATH_INFO".spec_bytes(), script),
        ("QUERY_STRING".spec_bytes(), query),
        ("SERVER_PROTOCOL".spec_bytes(), "HTTP/1.1".spec_bytes()),
        ("GATEWAY_INTERFACE".spec_bytes(), "CGI/1.1".spec_bytes()),
    ];
    let typed = if q.headers.contains_key("content-type".spec_bytes()) {
        fixed.push(("CONTENT_TYPE".spec_bytes(), q.headers["content-type".spec_bytes()]))
    } else {
        fixed
    };
    typed.push(
        (
            "CONTENT_LENGTH".spec_bytes(),
            if q.headers.contains_key("content-length".spec_bytes()) {
                q.headers["content-length".spec_bytes()]
            } else {
                dec_digits(q.body.len())
            },
        ),
    )
}

/// One variable of a script.
fn variable(name: &str, value: &[u8]) -> (r: Header)
    ensures
        r@ == (name.spec_bytes(), value@),
{
    Header { name: owned(name.as_bytes()), value: owned(value) }
}

/// The variables that a script is run with: the method, the script's path
/// (twice), the query, the protocol and interface versions, the content type
/// where the request has one, and the content length, which is the body's
/// length where the request declares none.
pub fn cgi_environment(req: &HttpRequest, script_path: &[u8], query: &[u8]) -> (r: Vec<Header>)
    ensures
        pairs(r@) == script_environment(req@, script_path@, query@),
{
    let mut env: Vec<Header> = Vec::new();
    env.push(variable("REQUEST_METHOD", req.method.as_slice()));
    env.push(variable("SCRIPT_FILENAME", script_path));
    env.push(variable("PATH_INFO", script_path));
    env.push(variable("QUERY_STRING", query));
    env.push(variable("SERVER_PROTOCOL", "HTTP/1.1".as_bytes()));
    env.push(variable("GATEWAY_INTERFACE", "CGI/1.1".as_bytes()));
    match req.headers.get("content-type".as_bytes()) {
        Some(v) => {
            env.push(variable("CONTENT_TYPE", v.as_slice()));
        },
        None => {},
    }
    match req.headers.get("content-length".as_bytes()) {
        Some(v) => {
            env.push(variable("CONTENT_LENGTH", v.as_slice()));
        },
        None => {
            let n = to_decimal(req.body.len());
            env.push(variable("CONTENT_LENGTH", n.as_slice()));
        },
    }
    proof {
        assert(pairs(env@) =~= script_environment(req@, script_path@, query@));
    }
    env
}

} // verus!
