use vstd::prelude::*;
use crate::paths::held;

verus! {

/// One route of a server: a path prefix and what is served below it.
#[derive(Clone)]
pub struct RouteConfig {
    pub path: Vec<u8>,
    pub root: Vec<u8>,
    pub upload_dir: Option<Vec<u8>>,
    pub methods: Vec<Vec<u8>>,
    pub index: Option<Vec<u8>>,
    pub autoindex: bool,
    pub redirect: Option<Vec<u8>>,
    pub cgi_extension: Option<Vec<u8>>,
    pub cgi_interpreter: Option<Vec<u8>>,
}

/// The page that a server sends with one status code.
pub struct ErrorPage {
    pub code: u16,
    pub path: Vec<u8>,
}

/// One server: where it listens, its limits, its error pages and its routes.
/// Of two error pages for one code the later one counts.
pub struct ServerConfig {
    pub host: Vec<u8>,
    pub port: Vec<u8>,
    pub server_name: Vec<u8>,
    pub max_body_size: usize,
    pub error_pages: Vec<ErrorPage>,
    pub routes: Vec<RouteConfig>,
}

/// The whole configuration.
pub struct Config {
    pub servers: Vec<ServerConfig>,
    pub max_server_size: usize,
    pub timeout_seconds: u64,
}

/// A route as mathematical values.
pub struct RouteView {
    pub path: Seq<u8>,
    pub root: Seq<u8>,
    pub upload_dir: Option<Seq<u8>>,
    pub methods: Seq<Seq<u8>>,
    pub index: Option<Seq<u8>>,
    pub autoindex: bool,
    pub redirect: Option<Seq<u8>>,
    pub cgi_extension: Option<Seq<u8>>,
    pub cgi_interpreter: Option<Seq<u8>>,
}

/// A server as mathematical values.
pub struct ServerView {
    pub host: Seq<u8>,
    pub port: Seq<u8>,
    pub server_name: Seq<u8>,
    pub max_body_size: usize,
    pub error_pages: Seq<(u16, Seq<u8>)>,
    pub routes: Seq<RouteView>,
}

/// A configuration as mathematical values.
pub struct ConfigView {
    pub servers: Seq<ServerView>,
    pub max_server_size: usize,
    pub timeout_seconds: u64,
}

impl View for RouteConfig {
    type V = RouteView;

    open spec fn view(&self) -> RouteView {
        RouteView {
            path: self.path@,
            root: self.root@,
            upload_dir: held(self.upload_dir),
            methods: self.methods@.map_values(|m: Vec<u8>| m@),
            index: held(self.index),
            autoindex: self.autoindex,
            redirect: held(self.redirect),
            cgi_extension: held(self.cgi_extension),
            cgi_interpreter: held(self.cgi_interpreter),
        }
    }
}

impl View for ErrorPage {
    type V = (u16, Seq<u8>);

    open spec fn view(&self) -> (u16, Seq<u8>) {
        (self.code, self.path@)
    }
}

impl View for ServerConfig {
    type V = ServerView;

    open spec fn view(&self) -> ServerView {
        ServerView {
            host: self.host@,
            port: self.port@,
            server_name: self.server_name@,
            max_body_size: self.max_body_size,
            error_pages: self.error_pages@.map_values(|p: ErrorPage| p@),
            routes: self.routes@.map_values(|r: RouteConfig| r@),
        }
    }
}

impl View for Config {
    type V = ConfigView;

    open spec fn view(&self) -> ConfigView {
        ConfigView {
            servers: self.servers@.map_values(|s: ServerConfig| s@),
            max_server_size: self.max_server_size,
            timeout_seconds: self.timeout_seconds,
        }
    }
}

/// The error pages of a list, by code: each code with its last path.
pub open spec fn pages_map(s: Seq<ErrorPage>) -> Map<u16, Seq<u8>>
    decreases s.len(),
{
    if s.len() == 0 {
        Map::empty()
    } else {
        pages_map(s.drop_last()).insert(s.last().code, s.last().path@)
    }
}

impl ServerConfig {
    /// The path of the page that this server sends with `code`, if it names one.
    pub fn error_page(&self, code: u16) -> (r: Option<&Vec<u8>>)
        ensures
            match r {
                Some(p) => pages_map(self.error_pages@).contains_key(code) && pages_map(
                    self.error_pages@,
                )[code] == p@,
                None => !pages_map(self.error_pages@).contains_key(code),
            },
    {
        let mut i: usize = self.error_pages.len();
        proof {
            assert(self.error_pages@.take(i as int) =~= self.error_pages@);
        }
        while i > 0
            invariant
                i <= self.error_pages@.len(),
                pages_map(self.error_pages@).contains_key(code) == pages_map(
                    self.error_pages@.take(i as int),
                ).contains_key(code),
                pages_map(self.error_pages@).contains_key(code) ==> pages_map(
                    self.error_pages@,
                )[code] == pages_map(self.error_pages@.take(i as int))[code],
            decreases i,
        {
            proof {
                assert(self.error_pages@.take(i as int).drop_last() =~= self.error_pages@.take(
                    i - 1,
                ));
            }
            if self.error_pages[i - 1].code == code {
                return Some(&self.error_pages[i - 1].path);
            }
            i -= 1;
        }
        None
    }
}

impl Config {
    /// The most bytes that a request body may hold on the server `server_idx`:
    /// the smaller of the server's limit and the global one; the global one
    /// where there is no such server.
    pub open spec fn body_limit(&self, server_idx: int) -> int {
        if 0 <= server_idx < self.servers@.len() {
            if self.servers@[server_idx].max_body_size < self.max_server_size {
                self.servers@[server_idx].max_body_size as int
            } else {
                self.max_server_size as int
            }
        } else {
            self.max_server_size as int
        }
    }

    /// The most bytes that a request body may hold on the server `server_idx`.
    pub fn effective_body_limit(&self, server_idx: usize) -> (r: usize)
        ensures
            r == self.body_limit(server_idx as int),
    {
        if server_idx < self.servers.len() {
            let m = self.servers[server_idx].max_body_size;
            if m < self.max_server_size {
                m
            } else {
                self.max_server_size
            }
        } else {
            self.max_server_size
        }
    }
}

} // verus!
