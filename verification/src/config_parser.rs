use vstd::prelude::*;
use vstd::slice::slice_subrange;
use vstd::utf8::valid_utf8;
use vstd::string::StringSliceAdditionalSpecFns;
use crate::bytes::{
    find_byte, find_from, has_prefix, line_at, line_bounds, line_next, owned, same_bytes,
    space_at, space_front, starts_with, trim, trimmed, unquote, unquoted,
};
use crate::config::{
    Config, ConfigView, ErrorPage, RouteConfig, RouteView, ServerConfig, ServerView,
};
use crate::number::{parse_number, parse_uint};
use crate::request::is_utf8;

verus! {

/// Which block of a server the lines belong to.
#[derive(Debug, Clone, Copy, PartialEq, Eq, Structural)]
pub enum ParseMode {
    General,
    ErrorPages,
    Routes,
}

/// Why a configuration text cannot be read.
#[derive(Debug, Clone, Copy, PartialEq, Eq, Structural)]
pub enum ConfigError {
    /// The text is not UTF-8.
    NotUtf8,
}

/// The key of a line: what stands before its first colon, or the whole line,
/// without surrounding white space.
pub open spec fn key_of(line: Seq<u8>) -> Seq<u8> {
    match find_from(line, seq![58u8], 0) {
        Some(c) => trim(line.take(c)),
        None => trim(line),
    }
}

/// The value of a line: what stands behind its first colon, without
/// surrounding white space and quotes; empty where there is no colon.
pub open spec fn value_of(line: Seq<u8>) -> Seq<u8> {
    match find_from(line, seq![58u8], 0) {
        Some(c) => unquoted(line.skip(c + 1)),
        None => Seq::empty(),
    }
}

/// Splits a line into key and value.
pub fn split_kv(line: &[u8]) -> (r: (Vec<u8>, Vec<u8>))
    ensures
        r.0@ == key_of(line@),
        r.1@ == value_of(line@),
{
    match find_byte(line, 58u8, 0) {
        Some(c) => {
            proof {
                assert(line@.subrange(0, c as int) =~= line@.take(c as int));
                assert(line@.subrange(c + 1, line@.len() as int) =~= line@.skip(c + 1));
            }
            (
                trimmed(slice_subrange(line, 0, c)),
                unquote(slice_subrange(line, c + 1, line.len())),
            )
        },
        None => (trimmed(line), Vec::new()),
    }
}

/// Whether a byte is one that a list is stripped of at its ends.
pub open spec fn is_list_edge(b: u8) -> bool {
    b == 91 || b == 93 || b == 32
}

/// `s` without brackets and blanks at its start.
pub open spec fn list_front(s: Seq<u8>) -> Seq<u8>
    decreases s.len(),
{
    if s.len() > 0 && is_list_edge(s[0]) {
        list_front(s.skip(1))
    } else {
        s
    }
}

/// `s` without brackets and blanks at its end.
pub open spec fn list_back(s: Seq<u8>) -> Seq<u8>
    decreases s.len(),
{
    if s.len() > 0 && is_list_edge(s.last()) {
        list_back(s.drop_last())
    } else {
        s
    }
}

/// The items of a comma-separated text from `pos` on, behind `acc`: each
/// without surrounding white space and quotes, empty ones left out.
pub open spec fn items_from(s: Seq<u8>, pos: int, acc: Seq<Seq<u8>>) -> Seq<Seq<u8>>
    decreases s.len() - pos,
{
    if pos < 0 || pos > s.len() {
        acc
    } else {
        match find_from(s, seq![44u8], pos) {
            Some(c) => items_from(
                s,
                c + 1,
                if unquoted(s.subrange(pos, c)).len() > 0 {
                    acc.push(unquoted(s.subrange(pos, c)))
                } else {
                    acc
                },
            ),
            None => if unquoted(s.subrange(pos, s.len() as int)).len() > 0 {
                acc.push(unquoted(s.subrange(pos, s.len() as int)))
            } else {
                acc
            },
        }
    }
}

/// The items of a list such as `[GET, POST]`.
pub open spec fn list_of(value: Seq<u8>) -> Seq<Seq<u8>> {
    items_from(list_back(list_front(value)), 0, Seq::empty())
}

/// Whether a byte is one that a list is stripped of at its ends.
fn list_edge(b: u8) -> (r: bool)
    ensures
        r == is_list_edge(b),
{
    b == 91 || b == 93 || b == 32
}

/// Reads a list such as `[GET, POST]`.
pub fn parse_list(value: &[u8]) -> (r: Vec<Vec<u8>>)
    ensures
        r@.map_values(|m: Vec<u8>| m@) == list_of(value@),
{
    let mut a: usize = 0;
    proof {
        assert(value@.skip(0) =~= value@);
    }
    while a < value.len() && list_edge(value[a])
        invariant
            a <= value@.len(),
            list_front(value@) == list_front(value@.skip(a as int)),
        decreases value.len() - a,
    {
        proof {
            assert(value@.skip(a as int).skip(1) =~= value@.skip(a + 1));
        }
        a += 1;
    }
    let mut b: usize = value.len();
    proof {
        assert(value@.skip(a as int) =~= value@.subrange(a as int, b as int));
    }
    while a < b && list_edge(value[b - 1])
        invariant
            a <= b <= value@.len(),
            list_back(list_front(value@)) == list_back(value@.subrange(a as int, b as int)),
        decreases b - a,
    {
        proof {
            assert(value@.subrange(a as int, b as int).drop_last() =~= value@.subrange(
                a as int,
                b - 1,
            ));
        }
        b -= 1;
    }
    let s = slice_subrange(value, a, b);
    let mut out: Vec<Vec<u8>> = Vec::new();
    let mut pos: usize = 0;
    proof {
        assert(out@.map_values(|m: Vec<u8>| m@) =~= Seq::empty());
    }
    loop
        invariant
            pos <= s@.len(),
            list_of(value@) == items_from(s@, pos as int, out@.map_values(|m: Vec<u8>| m@)),
        decreases s@.len() - pos,
    {
        let found = find_byte(s, 44u8, pos);
        let end = match found {
            Some(c) => c,
            None => s.len(),
        };
        let item = unquote(slice_subrange(s, pos, end));
        if item.len() > 0 {
            let ghost before = out@.map_values(|m: Vec<u8>| m@);
            out.push(item);
            proof {
                assert(out@.map_values(|m: Vec<u8>| m@) =~= before.push(item@));
            }
        }
        match found {
            Some(c) => {
                pos = c + 1;
            },
            None => {
                return out;
            },
        }
    }
}

/// A server with the values that hold where the text gives none.
pub open spec fn fresh_server() -> ServerView {
    ServerView {
        host: "0.0.0.0".spec_bytes(),
        port: Seq::empty(),
        server_name: "localhost".spec_bytes(),
        max_body_size: 1048576,
        error_pages: Seq::empty(),
        routes: Seq::empty(),
    }
}

/// A route with the values that hold where the text gives none.
pub open spec fn fresh_route() -> RouteView {
    RouteView {
        path: "/".spec_bytes(),
        root: "./www".spec_bytes(),
        upload_dir: None,
        methods: Seq::empty(),
        index: None,
        autoindex: false,
        redirect: None,
        cgi_extension: None,
        cgi_interpreter: None,
    }
}

/// A server with the values that hold where the text gives none.
pub fn default_server() -> (r: ServerConfig)
    ensures
        r@ == fresh_server(),
{
    let r = ServerConfig {
        host: owned("0.0.0.0".as_bytes()),
        port: Vec::new(),
        server_name: owned("localhost".as_bytes()),
        max_body_size: 1048576,
        error_pages: Vec::new(),
        routes: Vec::new(),
    };
    proof {
        assert(r@.error_pages =~= Seq::empty());
        assert(r@.routes =~= Seq::empty());
        assert(r@.port =~= Seq::empty());
    }
    r
}

/// A route with the values that hold where the text gives none.
pub fn default_route() -> (r: RouteConfig)
    ensures
        r@ == fresh_route(),
{
    let r = RouteConfig {
        path: owned("/".as_bytes()),
        root: owned("./www".as_bytes()),
        upload_dir: None,
        methods: Vec::new(),
        index: None,
        autoindex: false,
        redirect: None,
        cgi_extension: None,
        cgi_interpreter: None,
    };
    proof {
        assert(r@.methods =~= Seq::empty());
    }
    r
}

/// The number that a value gives, or `otherwise` where it gives none of at
/// most `max`.
pub open spec fn number_or(value: Seq<u8>, max: nat, otherwise: nat) -> nat {
    match parse_number(value, 10, max) {
        Some(n) => n,
        None => otherwise,
    }
}

/// A server after one of its fields was set; a key that names no field
/// changes nothing.
pub open spec fn server_with(s: ServerView, key: Seq<u8>, value: Seq<u8>) -> ServerView {
    if key == "host".spec_bytes() {
        ServerView { host: value, ..s }
    } else if key == "server_name".spec_bytes() {
        ServerView { server_name: value, ..s }
    } else if key == "max_body_size".spec_bytes() {
        ServerView { max_body_size: number_or(value, usize::MAX as nat, 1048576) as usize, ..s }
    } else if key == "port".spec_bytes() {
        ServerView { port: value, ..s }
    } else {
        s
    }
}

/// Sets one field of a server.
pub fn apply_server_field(server: &mut ServerConfig, key: &[u8], value: &[u8])
    ensures
        final(server)@ == server_with(old(server)@, key@, value@),
{
    if same_bytes(key, "host".as_bytes()) {
        server.host = owned(value);
    } else if same_bytes(key, "server_name".as_bytes()) {
        server.server_name = owned(value);
    } else if same_bytes(key, "max_body_size".as_bytes()) {
        server.max_body_size = match parse_uint(value, 10, usize::MAX) {
            Some(n) => n,
            None => 1048576,
        };
    } else if same_bytes(key, "port".as_bytes()) {
        server.port = owned(value);
    }
}

/// A route after one of its fields was set; a key that names no field changes
/// nothing.
pub open spec fn route_with(r: RouteView, key: Seq<u8>, value: Seq<u8>) -> RouteView {
    if key == "path".spec_bytes() {
        RouteView { path: value, ..r }
    } else if key == "root".spec_bytes() {
        RouteView { root: value, ..r }
    } else if key == "upload_dir".spec_bytes() {
        RouteView { upload_dir: Some(value), ..r }
    } else if key == "index".spec_bytes() {
        RouteView { index: Some(value), ..r }
    } else if key == "autoindex".spec_bytes() {
        RouteView { autoindex: value == "true".spec_bytes(), ..r }
    } else if key == "redirect".spec_bytes() {
        RouteView { redirect: Some(value), ..r }
    } else if key == "cgi_extension".spec_bytes() {
        RouteView { cgi_extension: Some(value), ..r }
    } else if key == "cgi_interpreter".spec_bytes() {
        RouteView { cgi_interpreter: Some(value), ..r }
    } else if key == "methods".spec_bytes() {
        RouteView { methods: list_of(value), ..r }
    } else {
        r
    }
}

/// Sets one field of a route.
pub fn apply_route_field(route: &mut RouteConfig, key: &[u8], value: &[u8])
    ensures
        final(route)@ == route_with(old(route)@, key@, value@),
{
    if same_bytes(key, "path".as_bytes()) {
        route.path = owned(value);
    } else if same_bytes(key, "root".as_bytes()) {
        route.root = owned(value);
    } else if same_bytes(key, "upload_dir".as_bytes()) {
        route.upload_dir = Some(owned(value));
    } else if same_bytes(key, "index".as_bytes()) {
        route.index = Some(owned(value));
    } else if same_bytes(key, "autoindex".as_bytes()) {
        route.autoindex = same_bytes(value, "true".as_bytes());
    } else if same_bytes(key, "redirect".as_bytes()) {
        route.redirect = Some(owned(value));
    } else if same_bytes(key, "cgi_extension".as_bytes()) {
        route.cgi_extension = Some(owned(value));
    } else if same_bytes(key, "cgi_interpreter".as_bytes()) {
        route.cgi_interpreter = Some(owned(value));
    } else if same_bytes(key, "methods".as_bytes()) {
        route.methods = parse_list(value);
    }
}

/// How many white-space characters a line begins with.
pub open spec fn indent_of(s: Seq<u8>) -> nat
    decreases s.len(),
{
    if space_front(s) > 0 {
        1 + indent_of(s.skip(space_front(s)))
    } else {
        0
    }
}

/// Where reading stands: the servers read so far, the server and the route
/// that are being read, and the block that the lines belong to.
pub struct Progress {
    pub config: Config,
    pub server: Option<ServerConfig>,
    pub route: Option<RouteConfig>,
    pub mode: ParseMode,
}

/// A `Progress` as mathematical values.
pub struct ProgressView {
    pub config: ConfigView,
    pub server: Option<ServerView>,
    pub route: Option<RouteView>,
    pub mode: ParseMode,
}

impl View for Progress {
    type V = ProgressView;

    open spec fn view(&self) -> ProgressView {
        ProgressView {
            config: self.config@,
            server: match self.server {
                Some(s) => Some(s@),
                None => None,
            },
            route: match self.route {
                Some(r) => Some(r@),
                None => None,
            },
            mode: self.mode,
        }
    }
}

/// A server with the route that was being read added to its routes.
pub open spec fn server_closed(s: ServerView, route: Option<RouteView>) -> ServerView {
    match route {
        Some(r) => ServerView { routes: s.routes.push(r), ..s },
        None => s,
    }
}

/// The configuration with the server that was being read added to its servers.
pub open spec fn servers_closed(st: ProgressView) -> ConfigView {
    match st.server {
        Some(s) => ConfigView {
            servers: st.config.servers.push(server_closed(s, st.route)),
            ..st.config
        },
        None => st.config,
    }
}

/// What a line without indentation does: it may set one of the global limits.
pub open spec fn top_level(st: ProgressView, key: Seq<u8>, value: Seq<u8>) -> ProgressView {
    if key == "max_server_size".spec_bytes() {
        ProgressView {
            config: ConfigView {
                max_server_size: number_or(value, usize::MAX as nat, 10485760) as usize,
                ..st.config
            },
            ..st
        }
    } else if key == "timeout_seconds".spec_bytes() {
        ProgressView {
            config: ConfigView {
                timeout_seconds: number_or(value, usize::MAX as nat, 30) as u64,
                ..st.config
            },
            ..st
        }
    } else {
        st
    }
}

/// What a line indented by two does: `- ` begins a server, whose first field
/// may follow on the line; any other line sets a field of the current server.
pub open spec fn server_level(st: ProgressView, text: Seq<u8>) -> ProgressView {
    if has_prefix(text, "- ".spec_bytes()) {
        let rest = text.skip(2);
        ProgressView {
            config: servers_closed(st),
            server: Some(
                if rest.len() > 0 {
                    server_with(fresh_server(), key_of(rest), value_of(rest))
                } else {
                    fresh_server()
                },
            ),
            route: None,
            mode: ParseMode::General,
        }
    } else {
        match st.server {
            Some(s) => ProgressView {
                server: Some(server_with(s, key_of(text), value_of(text))),
                mode: ParseMode::General,
                ..st
            },
            None => st,
        }
    }
}

/// What a line indented by four, six or eight does to the current server `s`:
/// `error_pages` and `routes` open their blocks; in the block of error pages a
/// numeric key adds a page and any other key ends the block and sets a field;
/// in the block of routes a line that begins a route closes the one before,
/// and any other line sets a field of the current route.
pub open spec fn block_level(st: ProgressView, s: ServerView, indent: nat, text: Seq<u8>)
    -> ProgressView {
    let key = key_of(text);
    let value = value_of(text);
    if key == "error_pages".spec_bytes() {
        ProgressView { mode: ParseMode::ErrorPages, ..st }
    } else if key == "routes".spec_bytes() {
        ProgressView { mode: ParseMode::Routes, ..st }
    } else {
        match st.mode {
            ParseMode::ErrorPages => match parse_number(key, 10, 65535) {
                Some(code) => ProgressView {
                    server: Some(
                        ServerView { error_pages: s.error_pages.push((code as u16, value)), ..s },
                    ),
                    ..st
                },
                None => ProgressView {
                    server: Some(server_with(s, key, value)),
                    mode: ParseMode::General,
                    ..st
                },
            },
            ParseMode::Routes => if has_prefix(text, "- path".spec_bytes()) || (indent == 4
                && has_prefix(text, "- ".spec_bytes())) {
                let rest = if has_prefix(text, "- ".spec_bytes()) {
                    text.skip(2)
                } else {
                    text
                };
                ProgressView {
                    server: Some(server_closed(s, st.route)),
                    route: Some(route_with(fresh_route(), key_of(rest), value_of(rest))),
                    ..st
                }
            } else {
                match st.route {
                    Some(r) => ProgressView { route: Some(route_with(r, key, value)), ..st },
                    None => st,
                }
            },
            ParseMode::General => ProgressView { server: Some(server_with(s, key, value)), ..st },
        }
    }
}

/// What one line of the text does. Empty lines and lines that begin with `#`
/// do nothing, and neither do lines indented otherwise than by 0, 2, 4, 6 or 8.
pub open spec fn line_step(st: ProgressView, raw: Seq<u8>) -> ProgressView {
    let text = trim(raw);
    let indent = indent_of(raw);
    if text.len() == 0 || text[0] == 35 {
        st
    } else if indent == 0 {
        top_level(st, key_of(text), value_of(text))
    } else if indent == 2 {
        server_level(st, text)
    } else if indent == 4 || indent == 6 || indent == 8 {
        match st.server {
            Some(s) => block_level(st, s, indent, text),
            None => st,
        }
    } else {
        st
    }
}

/// Where reading stands after the lines from `pos` on.
pub open spec fn lines_from(content: Seq<u8>, pos: int, st: ProgressView) -> ProgressView
    decreases content.len() - pos,
{
    if pos < 0 || pos >= content.len() {
        st
    } else {
        lines_from(content, line_next(content, pos), line_step(st, line_at(content, pos)))
    }
}

/// Where reading begins: no servers, a cap of 10 MiB, a timeout of 30 seconds.
pub open spec fn start() -> ProgressView {
    ProgressView {
        config: ConfigView { servers: Seq::empty(), max_server_size: 10485760, timeout_seconds: 30 },
        server: None,
        route: None,
        mode: ParseMode::General,
    }
}

/// The configuration that a text describes.
pub open spec fn config_of(content: Seq<u8>) -> ConfigView {
    servers_closed(lines_from(content, 0, start()))
}

/// Adds the route that was being read to the server.
fn close_server(server: ServerConfig, route: Option<RouteConfig>) -> (r: ServerConfig)
    ensures
        r@ == server_closed(
            server@,
            match route {
                Some(x) => Some(x@),
                None => None,
            },
        ),
{
    match route {
        Some(x) => {
            let mut s = server;
            let ghost before = s@.routes;
            s.routes.push(x);
            proof {
                assert(s@.routes =~= before.push(x@));
            }
            s
        },
        None => server,
    }
}

/// Adds the server that was being read to the configuration.
fn close_servers(st: Progress) -> (r: Config)
    ensures
        r@ == servers_closed(st@),
{
    match st.server {
        Some(s) => {
            let closed = close_server(s, st.route);
            let mut config = st.config;
            let ghost before = config@.servers;
            config.servers.push(closed);
            proof {
                assert(config@.servers =~= before.push(closed@));
            }
            config
        },
        None => st.config,
    }
}

/// How many white-space characters a line begins with.
pub fn indentation(raw: &[u8]) -> (r: usize)
    ensures
        r == indent_of(raw@),
{
    let n = raw.len();
    let mut count: usize = 0;
    let mut pos: usize = 0;
    proof {
        assert(raw@.skip(0) =~= raw@);
    }
    loop
        invariant
            n == raw@.len(),
            pos <= n,
            count <= pos,
            indent_of(raw@) == count + indent_of(raw@.skip(pos as int)),
        decreases n - pos,
    {
        proof {
            assert(raw@.subrange(pos as int, n as int) =~= raw@.skip(pos as int));
        }
        let k = space_at(raw, pos, n);
        if k == 0 {
            return count;
        }
        proof {
            assert(raw@.skip(pos as int).skip(k as int) =~= raw@.skip(pos + k));
        }
        pos += k;
        count += 1;
    }
}

/// Takes a line without indentation into account.
fn at_top_level(st: Progress, key: &[u8], value: &[u8]) -> (r: Progress)
    ensures
        r@ == top_level(st@, key@, value@),
{
    let mut st = st;
    if same_bytes(key, "max_server_size".as_bytes()) {
        st.config.max_server_size = match parse_uint(value, 10, usize::MAX) {
            Some(n) => n,
            None => 10485760,
        };
    } else if same_bytes(key, "timeout_seconds".as_bytes()) {
        st.config.timeout_seconds = match parse_uint(value, 10, usize::MAX) {
            Some(n) => n as u64,
            None => 30,
        };
    }
    st
}

/// Takes a line indented by two into account.
fn at_server_level(st: Progress, text: &[u8]) -> (r: Progress)
    ensures
        r@ == server_level(st@, text@),
{
    if starts_with(text, "- ".as_bytes()) {
        proof {
            reveal_strlit("- ");
            vstd::string::is_ascii_spec_bytes("- ");
        }
        assert("- ".spec_bytes().len() == 2);
        let rest = slice_subrange(text, 2, text.len());
        proof {
            assert(rest@ =~= text@.skip(2));
        }
        let mut server = default_server();
        if rest.len() > 0 {
            let (k, v) = split_kv(rest);
            apply_server_field(&mut server, k.as_slice(), v.as_slice());
        }
        let config = close_servers(st);
        Progress { config, server: Some(server), route: None, mode: ParseMode::General }
    } else {
        match st.server {
            Some(s) => {
                let mut server = s;
                let (k, v) = split_kv(text);
                apply_server_field(&mut server, k.as_slice(), v.as_slice());
                Progress {
                    config: st.config,
                    server: Some(server),
                    route: st.route,
                    mode: ParseMode::General,
                }
            },
            None => st,
        }
    }
}

/// Takes a line indented by four, six or eight into account.
fn at_block_level(
    config: Config,
    s: ServerConfig,
    route: Option<RouteConfig>,
    mode: ParseMode,
    indent: usize,
    text: &[u8],
) -> (r: Progress)
    ensures
        r@ == block_level(
            (Progress { config, server: Some(s), route, mode })@,
            s@,
            indent as nat,
            text@,
        ),
{
    let (key, value) = split_kv(text);
    if same_bytes(key.as_slice(), "error_pages".as_bytes()) {
        return Progress { config, server: Some(s), route, mode: ParseMode::ErrorPages };
    }
    if same_bytes(key.as_slice(), "routes".as_bytes()) {
        return Progress { config, server: Some(s), route, mode: ParseMode::Routes };
    }
    let mut server = s;
    match mode {
        ParseMode::ErrorPages => match parse_uint(key.as_slice(), 10, 65535) {
            Some(code) => {
                let ghost before = server@.error_pages;
                server.error_pages.push(ErrorPage { code: code as u16, path: value });
                proof {
                    assert(server@.error_pages =~= before.push((code as u16, value@)));
                }
                Progress { config, server: Some(server), route, mode }
            },
            None => {
                apply_server_field(&mut server, key.as_slice(), value.as_slice());
                Progress { config, server: Some(server), route, mode: ParseMode::General }
            },
        },
        ParseMode::Routes => {
            let dashed = starts_with(text, "- ".as_bytes());
            if starts_with(text, "- path".as_bytes()) || (indent == 4 && dashed) {
                let rest = if dashed {
                    proof {
                        reveal_strlit("- ");
                        vstd::string::is_ascii_spec_bytes("- ");
                    }
                    assert("- ".spec_bytes().len() == 2);
                    slice_subrange(text, 2, text.len())
                } else {
                    text
                };
                proof {
                    if dashed {
                        assert(rest@ =~= text@.skip(2));
                    }
                }
                let closed = close_server(server, route);
                let mut fresh = default_route();
                let (k, v) = split_kv(rest);
                apply_route_field(&mut fresh, k.as_slice(), v.as_slice());
                Progress { config, server: Some(closed), route: Some(fresh), mode }
            } else {
                match route {
                    Some(x) => {
                        let mut current = x;
                        apply_route_field(&mut current, key.as_slice(), value.as_slice());
                        Progress { config, server: Some(server), route: Some(current), mode }
                    },
                    None => Progress { config, server: Some(server), route: None, mode },
                }
            }
        },
        ParseMode::General => {
            apply_server_field(&mut server, key.as_slice(), value.as_slice());
            Progress { config, server: Some(server), route, mode }
        },
    }
}

/// Takes one line of the text into account.
pub fn apply_line(st: Progress, raw: &[u8]) -> (r: Progress)
    ensures
        r@ == line_step(st@, raw@),
{
    let text = trimmed(raw);
    if text.len() == 0 || text[0] == 35 {
        return st;
    }
    let indent = indentation(raw);
    if indent == 0 {
        let (k, v) = split_kv(text.as_slice());
        at_top_level(st, k.as_slice(), v.as_slice())
    } else if indent == 2 {
        at_server_level(st, text.as_slice())
    } else if indent == 4 || indent == 6 || indent == 8 {
        match st.server {
            Some(s) => at_block_level(st.config, s, st.route, st.mode, indent, text.as_slice()),
            None => st,
        }
    } else {
        st
    }
}

/// Reads a configuration text. Every text that is UTF-8 gives a
/// configuration; what it does not understand it passes over.
pub fn parse_config(content: &[u8]) -> (r: Result<Config, ConfigError>)
    ensures
        match r {
            Ok(c) => valid_utf8(content@) && c@ == config_of(content@),
            Err(e) => !valid_utf8(content@) && e == ConfigError::NotUtf8,
        },
{
    if !is_utf8(content) {
        return Err(ConfigError::NotUtf8);
    }
    let mut st = Progress {
        config: Config { servers: Vec::new(), max_server_size: 10485760, timeout_seconds: 30 },
        server: None,
        route: None,
        mode: ParseMode::General,
    };
    proof {
        assert(st@.config.servers =~= Seq::empty());
    }
    let mut pos: usize = 0;
    while pos < content.len()
        invariant
            valid_utf8(content@),
            lines_from(content@, 0, start()) == lines_from(content@, pos as int, st@),
        decreases content.len() - pos,
    {
        let (e, next) = line_bounds(content, pos);
        st = apply_line(st, slice_subrange(content, pos, e));
        pos = next;
    }
    Ok(close_servers(st))
}

} // verus!
