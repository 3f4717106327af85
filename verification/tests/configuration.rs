use localhost_rs::config::{ErrorPage, ServerConfig};
use localhost_rs::config_parser::{
    apply_route_field, apply_server_field, default_route, default_server, indentation,
    parse_config, parse_list, split_kv, ConfigError,
};

#[test]
fn defaults() {
    let s = default_server();
    assert_eq!(s.host, b"0.0.0.0".to_vec());
    assert_eq!(s.server_name, b"localhost".to_vec());
    assert_eq!(s.max_body_size, 1048576);
    assert!(s.port.is_empty() && s.routes.is_empty() && s.error_pages.is_empty());
    let r = default_route();
    assert_eq!(r.path, b"/".to_vec());
    assert_eq!(r.root, b"./www".to_vec());
    assert!(r.methods.is_empty());
    assert!(!r.autoindex);
    assert!(r.upload_dir.is_none() && r.index.is_none() && r.redirect.is_none());
    assert!(r.cgi_extension.is_none() && r.cgi_interpreter.is_none());
    let c = parse_config(b"").unwrap();
    assert_eq!(c.max_server_size, 10485760);
    assert_eq!(c.timeout_seconds, 30);
    assert!(c.servers.is_empty());
}

#[test]
fn keys_and_values() {
    assert_eq!(split_kv(b"host: \"127.0.0.1\""), (b"host".to_vec(), b"127.0.0.1".to_vec()));
    assert_eq!(split_kv(b" a : 'b:c' "), (b"a".to_vec(), b"b:c".to_vec()));
    assert_eq!(split_kv(b"routes"), (b"routes".to_vec(), Vec::new()));
    assert_eq!(split_kv(b"k:"), (b"k".to_vec(), Vec::new()));
}

#[test]
fn lists() {
    assert_eq!(parse_list(b"[GET, POST]"), vec![b"GET".to_vec(), b"POST".to_vec()]);
    assert_eq!(parse_list(b"[ \"GET\" , 'PUT',, ]"), vec![b"GET".to_vec(), b"PUT".to_vec()]);
    assert_eq!(parse_list(b"[]"), Vec::<Vec<u8>>::new());
    assert_eq!(parse_list(b"GET"), vec![b"GET".to_vec()]);
}

#[test]
fn fields() {
    let mut s = default_server();
    apply_server_field(&mut s, b"port", b"8080");
    apply_server_field(&mut s, b"max_body_size", b"100");
    apply_server_field(&mut s, b"unknown", b"x");
    assert_eq!(s.port, b"8080".to_vec());
    assert_eq!(s.max_body_size, 100);
    apply_server_field(&mut s, b"max_body_size", b"lots");
    assert_eq!(s.max_body_size, 1048576);
    let mut r = default_route();
    apply_route_field(&mut r, b"methods", b"[GET]");
    apply_route_field(&mut r, b"autoindex", b"true");
    apply_route_field(&mut r, b"upload_dir", b"./up");
    apply_route_field(&mut r, b"cgi_extension", b".sh");
    assert_eq!(r.methods, vec![b"GET".to_vec()]);
    assert!(r.autoindex);
    assert_eq!(r.upload_dir, Some(b"./up".to_vec()));
    assert_eq!(r.cgi_extension, Some(b".sh".to_vec()));
    apply_route_field(&mut r, b"autoindex", b"yes");
    assert!(!r.autoindex);
}

#[test]
fn indentation_counts_characters() {
    assert_eq!(indentation(b"    x"), 4);
    assert_eq!(indentation(b"x  "), 0);
    assert_eq!(indentation("\t\u{a0} x".as_bytes()), 3);
    assert_eq!(indentation(b""), 0);
}

fn page(s: &ServerConfig, code: u16) -> Option<Vec<u8>> {
    s.error_page(code).cloned()
}

#[test]
fn whole_configuration() {
    let text = "\
# a comment
max_server_size: 2048
timeout_seconds: 5
servers:
  - host: 127.0.0.1
    port: 8080
    server_name: \"main\"
    max_body_size: 100
    error_pages:
      404: /errors/404.html
      500: '/errors/500.html'
    routes:
      - path: /
        root: ./www
        methods: [GET]
        index: index.html
      - path: /upload
        upload_dir: ./uploads
        methods: [POST, PUT]
      - path: /cgi
        cgi_extension: .sh
        cgi_interpreter: /bin/sh
        autoindex: true
  - port: 9090
    routes:
      - path: /only
";
    let c = parse_config(text.as_bytes()).unwrap();
    assert_eq!(c.max_server_size, 2048);
    assert_eq!(c.timeout_seconds, 5);
    assert_eq!(c.servers.len(), 2);
    let a = &c.servers[0];
    assert_eq!(a.host, b"127.0.0.1".to_vec());
    assert_eq!(a.port, b"8080".to_vec());
    assert_eq!(a.server_name, b"main".to_vec());
    assert_eq!(a.max_body_size, 100);
    assert_eq!(page(a, 404), Some(b"/errors/404.html".to_vec()));
    assert_eq!(page(a, 500), Some(b"/errors/500.html".to_vec()));
    assert_eq!(page(a, 403), None);
    assert_eq!(a.routes.len(), 3);
    assert_eq!(a.routes[0].path, b"/".to_vec());
    assert_eq!(a.routes[0].methods, vec![b"GET".to_vec()]);
    assert_eq!(a.routes[0].index, Some(b"index.html".to_vec()));
    assert_eq!(a.routes[1].path, b"/upload".to_vec());
    assert_eq!(a.routes[1].root, b"./www".to_vec());
    assert_eq!(a.routes[1].upload_dir, Some(b"./uploads".to_vec()));
    assert_eq!(a.routes[1].methods, vec![b"POST".to_vec(), b"PUT".to_vec()]);
    assert_eq!(a.routes[2].cgi_extension, Some(b".sh".to_vec()));
    assert_eq!(a.routes[2].cgi_interpreter, Some(b"/bin/sh".to_vec()));
    assert!(a.routes[2].autoindex);
    let b = &c.servers[1];
    assert_eq!(b.host, b"0.0.0.0".to_vec());
    assert_eq!(b.port, b"9090".to_vec());
    assert_eq!(b.server_name, b"localhost".to_vec());
    assert_eq!(b.max_body_size, 1048576);
    assert_eq!(b.routes.len(), 1);
    assert_eq!(b.routes[0].path, b"/only".to_vec());
}

#[test]
fn later_error_page_for_a_code_counts() {
    let s = ServerConfig {
        host: Vec::new(),
        port: Vec::new(),
        server_name: Vec::new(),
        max_body_size: 0,
        error_pages: vec![
            ErrorPage { code: 404, path: b"a".to_vec() },
            ErrorPage { code: 500, path: b"b".to_vec() },
            ErrorPage { code: 404, path: b"c".to_vec() },
        ],
        routes: Vec::new(),
    };
    assert_eq!(page(&s, 404), Some(b"c".to_vec()));
    assert_eq!(page(&s, 500), Some(b"b".to_vec()));
}

#[test]
fn unreadable_numbers_fall_back() {
    let c = parse_config(b"max_server_size: many\ntimeout_seconds: soon\n").unwrap();
    assert_eq!(c.max_server_size, 10485760);
    assert_eq!(c.timeout_seconds, 30);
}

#[test]
fn text_that_is_not_utf8_is_refused() {
    assert!(matches!(parse_config(b"servers:\n  - host: \xff\n"), Err(ConfigError::NotUtf8)));
}

#[test]
fn a_key_that_is_no_code_ends_the_error_pages() {
    let text = "servers:\n  - port: 1\n    error_pages:\n      404: /a\n      host: example\n      500: /b\n";
    let c = parse_config(text.as_bytes()).unwrap();
    assert_eq!(c.servers.len(), 1);
    assert_eq!(page(&c.servers[0], 404), Some(b"/a".to_vec()));
    assert_eq!(page(&c.servers[0], 500), None);
    assert_eq!(c.servers[0].host, b"example".to_vec());
}

#[test]
fn lines_that_do_not_count() {
    let text = "\n   \n# servers\n   - port: 1\nservers:\n - host: x\n  # - host: y\n";
    let c = parse_config(text.as_bytes()).unwrap();
    assert!(c.servers.is_empty());
    let text = "servers:\r\n  - host: 10.0.0.1\r\n    port: 81\r\n  server_name: late\r\n  routes:\r\n";
    let c = parse_config(text.as_bytes()).unwrap();
    assert_eq!(c.servers.len(), 1);
    assert_eq!(c.servers[0].host, b"10.0.0.1".to_vec());
    assert_eq!(c.servers[0].port, b"81".to_vec());
    assert_eq!(c.servers[0].server_name, b"late".to_vec());
    assert!(c.servers[0].routes.is_empty());
}

#[test]
fn where_routes_begin() {
    let text = "servers:\n  - port: 1\n    routes:\n    - root: ./a\n      index: i.html\n      - root: ./b\n      - path: /c\n        root: ./d\n";
    let c = parse_config(text.as_bytes()).unwrap();
    assert_eq!(c.servers.len(), 1);
    let routes = &c.servers[0].routes;
    assert_eq!(routes.len(), 2);
    assert_eq!(routes[0].path, b"/".to_vec());
    assert_eq!(routes[0].root, b"./a".to_vec());
    assert_eq!(routes[0].index, Some(b"i.html".to_vec()));
    assert_eq!(routes[1].path, b"/c".to_vec());
    assert_eq!(routes[1].root, b"./d".to_vec());
}

#[test]
fn a_bare_dash_begins_no_server() {
    let c = parse_config(b"servers:\n  -\n    port: 1\n").unwrap();
    assert!(c.servers.is_empty());
}

#[test]
fn fields_before_any_server_are_dropped() {
    let text = "  host: nowhere\n    routes:\n      - path: /x\nmax_server_size: 7\n";
    let c = parse_config(text.as_bytes()).unwrap();
    assert!(c.servers.is_empty());
    assert_eq!(c.max_server_size, 7);
}
