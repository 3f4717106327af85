use vstd::prelude::*;
use vstd::slice::slice_subrange;
use vstd::string::StringSliceAdditionalSpecFns;
use crate::bytes::{
    append, ends_with, find_byte, find_from, has_prefix, has_suffix, owned, same_bytes,
    starts_with,
};
use crate::config::RouteConfig;
use crate::paths::{file_name_of, path_file_name};
use crate::response::{strip_leading_slashes, without_leading_slashes};

verus! {

/// Whether a request path falls under a route: the route is `/`, or the path
/// is the route, or the path begins with the route and a slash.
pub open spec fn route_matches(path: Seq<u8>, route: Seq<u8>) -> bool {
    route == seq![47u8] || path == route || has_prefix(path, route + seq![47u8])
}

/// Whether a request path falls under a route.
pub fn path_matches_route(path: &[u8], route_path: &[u8]) -> (r: bool)
    ensures
        r == route_matches(path@, route_path@),
{
    if route_path.len() == 1 && route_path[0] == 47 {
        proof {
            assert(route_path@ =~= seq![47u8]);
        }
        return true;
    }
    if same_bytes(path, route_path) {
        return true;
    }
    let mut prefix = owned(route_path);
    prefix.push(47u8);
    proof {
        assert(prefix@ =~= route_path@ + seq![47u8]);
    }
    starts_with(path, prefix.as_slice())
}

/// Whether route `i` is the one to serve `path`: it matches, no matching route
/// has a longer path, and no later matching route has one as long.
pub open spec fn is_best_route(routes: Seq<RouteConfig>, path: Seq<u8>, i: int) -> bool {
    &&& 0 <= i < routes.len()
    &&& route_matches(path, routes[i].path@)
    &&& forall|j: int|
        0 <= j < routes.len() && route_matches(path, #[trigger] routes[j].path@)
            ==> routes[j].path@.len() <= routes[i].path@.len()
    &&& forall|j: int|
        i < j < routes.len() && route_matches(path, #[trigger] routes[j].path@)
            ==> routes[j].path@.len() < routes[i].path@.len()
}

/// Whether no route matches `path`.
pub open spec fn no_route(routes: Seq<RouteConfig>, path: Seq<u8>) -> bool {
    forall|j: int| 0 <= j < routes.len() ==> !route_matches(path, #[trigger] routes[j].path@)
}

/// The route that serves `path`: the matching one with the longest path, the
/// last of them where several are as long.
pub fn select_route(routes: &Vec<RouteConfig>, path: &[u8]) -> (r: Option<usize>)
    ensures
        match r {
            Some(i) => is_best_route(routes@, path@, i as int),
            None => no_route(routes@, path@),
        },
{
    let mut best: Option<usize> = None;
    let mut k: usize = 0;
    while k < routes.len()
        invariant
            k <= routes@.len(),
            match best {
                Some(i) => is_best_route(routes@.take(k as int), path@, i as int),
                None => no_route(routes@.take(k as int), path@),
            },
        decreases routes.len() - k,
    {
        let ghost before = routes@.take(k as int);
        let ghost after = routes@.take(k + 1);
        proof {
            assert(forall|j: int| 0 <= j < k ==> before[j] == after[j]);
        }
        if path_matches_route(path, routes[k].path.as_slice()) {
            let better = match best {
                Some(i) => routes[k].path.len() >= routes[i].path.len(),
                None => true,
            };
            if better {
                best = Some(k);
            }
        }
        k += 1;
    }
    proof {
        assert(routes@.take(k as int) =~= routes@);
    }
    best
}

/// Whether a route lets a method through: it lists none, or lists this one.
pub open spec fn method_allowed(methods: Seq<Vec<u8>>, method: Seq<u8>) -> bool {
    methods.len() == 0 || exists|i: int| 0 <= i < methods.len() && (#[trigger] methods[i])@ == method
}

/// Whether `method` is among `methods`.
pub fn lists_method(methods: &Vec<Vec<u8>>, method: &[u8]) -> (r: bool)
    ensures
        r == exists|i: int| 0 <= i < methods@.len() && (#[trigger] methods@[i])@ == method@,
{
    let mut i: usize = 0;
    while i < methods.len()
        invariant
            i <= methods@.len(),
            forall|j: int| 0 <= j < i ==> (#[trigger] methods@[j])@ != method@,
        decreases methods.len() - i,
    {
        if same_bytes(methods[i].as_slice(), method) {
            return true;
        }
        i += 1;
    }
    false
}

/// Whether a route lets a method through.
pub fn allows_method(route: &RouteConfig, method: &[u8]) -> (r: bool)
    ensures
        r == method_allowed(route.methods@, method@),
{
    route.methods.len() == 0 || lists_method(&route.methods, method)
}

/// Whether a request path names a script of the route: the route has a script
/// extension and the path ends with it.
pub open spec fn is_script(route: RouteConfig, path: Seq<u8>) -> bool {
    match route.cgi_extension {
        Some(ext) => has_suffix(path, ext@),
        None => false,
    }
}

/// Whether a request path names a script of the route.
pub fn names_script(route: &RouteConfig, path: &[u8]) -> (r: bool)
    ensures
        r == is_script(*route, path@),
{
    match &route.cgi_extension {
        Some(ext) => ends_with(path, ext.as_slice()),
        None => false,
    }
}

/// The path of a request target: what stands before its first question mark.
pub open spec fn uri_path(uri: Seq<u8>) -> Seq<u8> {
    match find_from(uri, seq![63u8], 0) {
        Some(q) => uri.take(q),
        None => uri,
    }
}

/// The query of a request target: what stands behind its first question mark.
pub open spec fn uri_query(uri: Seq<u8>) -> Seq<u8> {
    match find_from(uri, seq![63u8], 0) {
        Some(q) => uri.skip(q + 1),
        None => Seq::empty(),
    }
}

/// Splits a request target at its first question mark into path and query.
pub fn split_uri(uri: &[u8]) -> (r: (Vec<u8>, Vec<u8>))
    ensures
        r.0@ == uri_path(uri@),
        r.1@ == uri_query(uri@),
{
    match find_byte(uri, 63u8, 0) {
        Some(q) => {
            let p = owned(slice_subrange(uri, 0, q));
            let s = owned(slice_subrange(uri, q + 1, uri.len()));
            proof {
                assert(uri@.subrange(0, q as int) =~= uri@.take(q as int));
                assert(uri@.subrange(q + 1, uri@.len() as int) =~= uri@.skip(q + 1));
            }
            (p, s)
        },
        None => (owned(uri), Vec::new()),
    }
}

/// What is left of a path below a prefix, without leading slashes; empty where
/// the path does not begin with the prefix.
pub open spec fn relative_to(path: Seq<u8>, prefix: Seq<u8>) -> Seq<u8> {
    if has_prefix(path, prefix) {
        without_leading_slashes(path.skip(prefix.len() as int))
    } else {
        Seq::empty()
    }
}

/// What is left of a path below a prefix, without leading slashes.
pub fn relative_path(path: &[u8], prefix: &[u8]) -> (r: Vec<u8>)
    ensures
        r@ == relative_to(path@, prefix@),
{
    if starts_with(path, prefix) {
        let rest = slice_subrange(path, prefix.len(), path.len());
        proof {
            assert(rest@ =~= path@.skip(prefix@.len() as int));
        }
        strip_leading_slashes(rest)
    } else {
        Vec::new()
    }
}

/// Where an uploaded file is found for a request path under one route, given
/// the last component `dir_name` of the route's upload directory: the
/// directory and the path below it. The route must have an upload directory
/// with a name and let `GET` through; the request path must fall under
/// `/<dir_name>` or, failing that, under the route's own path, and not end there.
pub open spec fn upload_target(route: RouteConfig, path: Seq<u8>, dir_name: Option<Seq<u8>>)
    -> Option<(Seq<u8>, Seq<u8>)> {
    match (route.upload_dir, dir_name) {
        (Some(dir), Some(name)) => {
            let own = seq![47u8] + name;
            let rel = if route_matches(path, own) {
                relative_to(path, own)
            } else {
                relative_to(path, route.path@)
            };
            if !method_allowed(route.methods@, "GET".spec_bytes()) || name.len() == 0 || !(
            route_matches(path, own) || route_matches(path, route.path@)) || rel.len() == 0 {
                None
            } else {
                Some((dir@, rel))
            }
        },
        _ => None,
    }
}

/// Where an uploaded file is found for a request path under one route.
pub fn find_upload_target(route: &RouteConfig, path: &[u8], dir_name: Option<&[u8]>) -> (r:
    Option<(Vec<u8>, Vec<u8>)>)
    ensures
        match r {
            Some(t) => upload_target(
                *route,
                path@,
                match dir_name {
                    Some(n) => Some(n@),
                    None => None,
                },
            ) == Some((t.0@, t.1@)),
            None => upload_target(
                *route,
                path@,
                match dir_name {
                    Some(n) => Some(n@),
                    None => None,
                },
            ).is_none(),
        },
{
    let dir = match &route.upload_dir {
        Some(d) => d,
        None => {
            return None;
        },
    };
    let name = match dir_name {
        Some(n) => n,
        None => {
            return None;
        },
    };
    if !allows_method(route, "GET".as_bytes()) || name.len() == 0 {
        return None;
    }
    let mut own: Vec<u8> = Vec::new();
    own.push(47u8);
    append(&mut own, name);
    proof {
        assert(own@ =~= seq![47u8] + name@);
    }
    let rel = if path_matches_route(path, own.as_slice()) {
        relative_path(path, own.as_slice())
    } else if path_matches_route(path, route.path.as_slice()) {
        relative_path(path, route.path.as_slice())
    } else {
        return None;
    };
    if rel.len() == 0 {
        return None;
    }
    Some((owned(dir.as_slice()), rel))
}

/// The upload directory of a route, where it has one.
pub open spec fn upload_dir_of(route: RouteConfig) -> Option<Seq<u8>> {
    match route.upload_dir {
        Some(d) => Some(d@),
        None => None,
    }
}

/// The name of a route's upload directory, where it has one.
pub open spec fn upload_dir_name(route: RouteConfig) -> Option<Seq<u8>> {
    match route.upload_dir {
        Some(d) => file_name_of(d@),
        None => None,
    }
}

/// Where an uploaded file is found for a request path: under the first route,
/// from `i` on, that offers a place.
pub open spec fn upload_target_from(routes: Seq<RouteConfig>, i: int, path: Seq<u8>) -> Option<
    (Seq<u8>, Seq<u8>),
>
    decreases routes.len() - i,
{
    if i < 0 || i >= routes.len() {
        None
    } else {
        match upload_target(routes[i], path, upload_dir_name(routes[i])) {
            Some(t) => Some(t),
            None => upload_target_from(routes, i + 1, path),
        }
    }
}

/// Where an uploaded file is found for a request path, among all routes.
pub fn try_serve_upload_file(routes: &Vec<RouteConfig>, path_only: &[u8]) -> (r: Option<
    (Vec<u8>, Vec<u8>),
>)
    ensures
        match r {
            Some(t) => upload_target_from(routes@, 0, path_only@) == Some((t.0@, t.1@)),
            None => upload_target_from(routes@, 0, path_only@).is_none(),
        },
{
    let mut i: usize = 0;
    while i < routes.len()
        invariant
            i <= routes@.len(),
            upload_target_from(routes@, 0, path_only@) == upload_target_from(
                routes@,
                i as int,
                path_only@,
            ),
        decreases routes.len() - i,
    {
        let name = match &routes[i].upload_dir {
            Some(d) => path_file_name(d.as_slice()),
            None => None,
        };
        let found = match &name {
            Some(n) => find_upload_target(&routes[i], path_only, Some(n.as_slice())),
            None => find_upload_target(&routes[i], path_only, None),
        };
        if found.is_some() {
            return found;
        }
        i += 1;
    }
    None
}

} // verus!
