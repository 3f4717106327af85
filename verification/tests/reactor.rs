use localhost_rs::config::{Config, RouteConfig, ServerConfig};
use localhost_rs::connection::{
    extract_content_length, has_expired, judge, Connection, ConnectionState, ReadStep, WriteStep,
};
use localhost_rs::server::{
    cgi_step, CgiStep, Closed, Dispatch, EventPlan, Finalized, ReadDecision, ReadOutcome,
    Readiness, Server, TokenClass, WaitOutcome, WriteDecision, WriteOutcome,
};

fn server_config(max_body_size: usize) -> ServerConfig {
    ServerConfig {
        host: b"127.0.0.1".to_vec(),
        port: b"8080".to_vec(),
        server_name: b"localhost".to_vec(),
        max_body_size,
        error_pages: Vec::new(),
        routes: vec![RouteConfig {
            path: b"/".to_vec(),
            root: b"./www".to_vec(),
            upload_dir: None,
            methods: Vec::new(),
            index: None,
            autoindex: false,
            redirect: None,
            cgi_extension: None,
            cgi_interpreter: None,
        }],
    }
}

fn reactor(max_body_size: usize, max_server_size: usize) -> Server {
    let config = Config {
        servers: vec![server_config(max_body_size)],
        max_server_size,
        timeout_seconds: 30,
    };
    let mut s = Server::new(config);
    assert!(s.add_listener(0));
    s
}

#[test]
fn listeners_and_tokens() {
    let mut s = reactor(1024, 4096);
    assert!(s.has_listeners());
    assert!(!s.add_listener(1));
    assert_eq!(s.classify(0), TokenClass::Listener);
    assert_eq!(s.classify(100), TokenClass::Client);
    let t = s.accept_connection(0, 5).unwrap();
    assert_eq!(t, 100);
    assert_eq!(s.accept_connection(0, 6), Some(101));
    assert_eq!(s.accept_connection(7, 6), None);
    assert_eq!(s.classify(t), TokenClass::Client);
    let conn = s.connection(t).unwrap();
    assert_eq!(conn.state, ConnectionState::ReadRequest);
    assert_eq!(conn.server_idx, 0);
    assert_eq!(conn.last_activity, 5);
}

#[test]
fn reactor_without_listeners() {
    let s = Server::new(Config { servers: Vec::new(), max_server_size: 10, timeout_seconds: 1 });
    assert!(!s.has_listeners());
}

#[test]
fn request_arrives_in_pieces() {
    let mut s = reactor(1024, 4096);
    let t = s.accept_connection(0, 0).unwrap();
    assert_eq!(
        s.read_from_client(t, ReadOutcome::Data(b"GET /hello.txt HT".to_vec()), 1),
        ReadDecision::Continue
    );
    assert_eq!(s.read_from_client(t, ReadOutcome::WouldBlock, 2), ReadDecision::Stop);
    assert_eq!(
        s.read_from_client(t, ReadOutcome::Data(b"TP/1.1\r\nHost: x\r\n\r\n".to_vec()), 3),
        ReadDecision::Process
    );
    let conn = s.connection(t).unwrap();
    assert_eq!(conn.read_buffer, b"GET /hello.txt HTTP/1.1\r\nHost: x\r\n\r\n".to_vec());
    assert_eq!(conn.last_activity, 3);
    assert!(conn.request_complete);
    let (req, idx) = s.request_of(t).unwrap();
    assert_eq!(req.uri, b"/hello.txt".to_vec());
    assert_eq!(idx, 0);
}

#[test]
fn malformed_request_has_no_request() {
    let mut s = reactor(1024, 4096);
    let t = s.accept_connection(0, 0).unwrap();
    assert_eq!(s.read_from_client(t, ReadOutcome::Data(b"\r\n\r\n".to_vec()), 1), ReadDecision::Process);
    assert!(s.request_of(t).is_none());
    assert!(s.request_of(9999).is_none());
}

#[test]
fn end_of_stream_and_failure_close() {
    let mut s = reactor(1024, 4096);
    let t = s.accept_connection(0, 0).unwrap();
    assert_eq!(s.read_from_client(t, ReadOutcome::Eof, 1), ReadDecision::Close);
    assert_eq!(s.read_from_client(t, ReadOutcome::Failed, 1), ReadDecision::Close);
    assert_eq!(s.read_from_client(555, ReadOutcome::Eof, 1), ReadDecision::Stop);
    assert_eq!(s.close_connection(t), Closed { connection: true, cgi_io: None });
    assert_eq!(s.close_connection(t), Closed { connection: false, cgi_io: None });
    assert!(s.connection(t).is_none());
}

#[test]
fn declared_length_over_the_limit_is_too_large() {
    let mut s = reactor(100, 10485760);
    let t = s.accept_connection(0, 0).unwrap();
    let head = b"POST /upload HTTP/1.1\r\nContent-Length: 1000000\r\n\r\n".to_vec();
    assert_eq!(s.read_from_client(t, ReadOutcome::Data(head), 1), ReadDecision::TooLarge);
    let page = localhost_rs::response::error_response(413, None);
    assert!(page.starts_with(b"HTTP/1.1 413 Payload Too Large\r\n"));
    assert_eq!(s.finalize_response(t, page.clone(), 2), Finalized { staged: true, cgi_io: None });
    assert_eq!(s.connection(t).unwrap().state, ConnectionState::WriteResponse);
    assert_eq!(s.write_to_client(t, WriteOutcome::Wrote(page.len()), 3), WriteDecision::Close);
    assert_eq!(s.close_connection(t), Closed { connection: true, cgi_io: None });
}

#[test]
fn body_over_the_limit_is_too_large() {
    let mut s = reactor(4, 10485760);
    let t = s.accept_connection(0, 0).unwrap();
    let raw = b"POST /u HTTP/1.1\r\nTransfer-Encoding: chunked\r\n\r\n5\r\nabcde".to_vec();
    assert_eq!(s.read_from_client(t, ReadOutcome::Data(raw), 1), ReadDecision::TooLarge);
}

#[test]
fn read_buffer_never_exceeds_the_cap() {
    let mut s = reactor(1024, 16);
    let t = s.accept_connection(0, 0).unwrap();
    assert_eq!(s.read_from_client(t, ReadOutcome::Data(vec![b'a'; 10]), 1), ReadDecision::Continue);
    assert_eq!(s.read_from_client(t, ReadOutcome::Data(vec![b'a'; 7]), 2), ReadDecision::TooLarge);
    assert_eq!(s.connection(t).unwrap().read_buffer.len(), 10);
    assert_eq!(s.read_from_client(t, ReadOutcome::Data(vec![b'a'; 6]), 3), ReadDecision::Continue);
    assert_eq!(s.connection(t).unwrap().read_buffer.len(), 16);
    assert_eq!(s.read_from_client(t, ReadOutcome::Data(vec![b'a'; 1]), 4), ReadDecision::TooLarge);
    assert_eq!(s.connection(t).unwrap().read_buffer.len(), 16);
}

#[test]
fn response_is_written_with_a_moving_cursor() {
    let mut s = reactor(1024, 4096);
    let t = s.accept_connection(0, 0).unwrap();
    let f = s.finalize_response(t, b"0123456789".to_vec(), 7);
    assert_eq!(f, Finalized { staged: true, cgi_io: None });
    assert_eq!(s.connection(t).unwrap().state, ConnectionState::WriteResponse);
    assert_eq!(s.unsent(t), Some(&b"0123456789"[..]));
    assert_eq!(s.write_to_client(t, WriteOutcome::Wrote(4), 8), WriteDecision::Continue);
    assert_eq!(s.unsent(t), Some(&b"456789"[..]));
    assert_eq!(s.write_to_client(t, WriteOutcome::WouldBlock, 9), WriteDecision::Stop);
    assert_eq!(s.connection(t).unwrap().bytes_written, 4);
    assert_eq!(s.write_to_client(t, WriteOutcome::Wrote(6), 10), WriteDecision::Close);
    assert_eq!(s.connection(t).unwrap().bytes_written, 10);
    assert_eq!(s.unsent(t), Some(&b""[..]));
    assert_eq!(s.unsent(12345), None);
}

#[test]
fn impossible_write_count_and_failure_close() {
    let mut s = reactor(1024, 4096);
    let t = s.accept_connection(0, 0).unwrap();
    s.finalize_response(t, b"abc".to_vec(), 1);
    assert_eq!(s.write_to_client(t, WriteOutcome::Wrote(4), 2), WriteDecision::Close);
    assert_eq!(s.connection(t).unwrap().bytes_written, 0);
    assert_eq!(s.write_to_client(t, WriteOutcome::Failed, 2), WriteDecision::Close);
    assert_eq!(s.write_to_client(999, WriteOutcome::Wrote(1), 2), WriteDecision::Stop);
}

#[test]
fn a_writing_connection_keeps_its_response_and_reads_nothing() {
    let mut s = reactor(1024, 4096);
    let t = s.accept_connection(0, 0).unwrap();
    s.finalize_response(t, b"first".to_vec(), 1);
    assert_eq!(s.finalize_response(t, b"second".to_vec(), 2), Finalized { staged: false, cgi_io: None });
    assert_eq!(s.connection(t).unwrap().write_buffer, b"first".to_vec());
    assert_eq!(s.read_from_client(t, ReadOutcome::Data(b"more".to_vec()), 3), ReadDecision::Stop);
    assert!(s.connection(t).unwrap().read_buffer.is_empty());
    assert_eq!(s.start_cgi_process(t, 4), None);
    assert_eq!(s.connection(t).unwrap().state, ConnectionState::WriteResponse);
}

#[test]
fn client_events() {
    let mut s = reactor(1024, 4096);
    let t = s.accept_connection(0, 0).unwrap();
    let all = Readiness { readable: true, writable: true, read_closed: true, write_closed: false };
    assert_eq!(s.handle_client_event(t, all), EventPlan { read: true, write: true, close: true });
    assert_eq!(s.handle_client_event(999, all), EventPlan { read: false, write: false, close: false });
    let io = s.start_cgi_process(t, 1).unwrap();
    assert_eq!(s.handle_client_event(t, all), EventPlan { read: false, write: false, close: true });
    let quiet = Readiness { readable: true, writable: true, read_closed: false, write_closed: false };
    assert_eq!(s.handle_client_event(t, quiet), EventPlan { read: false, write: false, close: false });
    s.finish_cgi(t, 2);
    assert_eq!(s.handle_client_event(t, quiet), EventPlan { read: false, write: true, close: false });
    assert_eq!(s.classify(io), TokenClass::Client);
}

#[test]
fn script_life_cycle() {
    let mut s = reactor(1024, 4096);
    let t = s.accept_connection(0, 0).unwrap();
    let io = s.start_cgi_process(t, 10).unwrap();
    assert_eq!(io, 101);
    assert_eq!(s.classify(io), TokenClass::CgiOutput { client: t });
    assert_eq!(s.connection(t).unwrap().state, ConnectionState::CgiPending);
    assert!(s.cgi_output(t, b"foo", 11));
    assert!(s.cgi_output(t, b"bar", 12));
    assert!(!s.cgi_output(999, b"x", 12));
    assert_eq!(s.connection(t).unwrap().last_activity, 12);
    assert_eq!(s.pending(t).unwrap().output, b"foobar".to_vec());
    assert_eq!(cgi_step(false, WaitOutcome::Running), CgiStep::Wait);
    assert_eq!(cgi_step(false, WaitOutcome::Exited), CgiStep::Finish);
    assert_eq!(cgi_step(false, WaitOutcome::Failed), CgiStep::Fail);
    assert_eq!(cgi_step(true, WaitOutcome::Exited), CgiStep::Fail);
    assert_eq!(s.finish_cgi(t, 13), Finalized { staged: true, cgi_io: Some(io) });
    assert_eq!(s.classify(io), TokenClass::Client);
    assert!(s.pending(t).is_none());
    let conn = s.connection(t).unwrap();
    assert_eq!(conn.state, ConnectionState::WriteResponse);
    assert_eq!(
        conn.write_buffer,
        b"HTTP/1.1 200 OK\r\nContent-Type: text/plain\r\nContent-Length: 6\r\nServer: Localhost_RS\r\nConnection: close\r\n\r\nfoobar".to_vec()
    );
    assert_eq!(s.finish_cgi(t, 14), Finalized { staged: false, cgi_io: None });
}

#[test]
fn closing_a_client_takes_its_script_down() {
    let mut s = reactor(1024, 4096);
    let t = s.accept_connection(0, 0).unwrap();
    let io = s.start_cgi_process(t, 1).unwrap();
    assert_eq!(s.close_connection(t), Closed { connection: true, cgi_io: Some(io) });
    assert!(s.connection(t).is_none());
    assert!(s.pending(t).is_none());
    assert_eq!(s.classify(io), TokenClass::Client);
    assert_eq!(s.classify(0), TokenClass::Listener);
}

#[test]
fn script_timeout_gives_504() {
    let mut s = reactor(1024, 4096);
    let t = s.accept_connection(0, 0).unwrap();
    let io = s.start_cgi_process(t, 1000).unwrap();
    assert!(!s.is_overdue(t, 31000));
    assert!(s.is_overdue(t, 31001));
    assert!(!s.is_idle(t, 1000000));
    assert_eq!(s.check_cgi_timeouts(&[t, io, 0, 999], 31000), Vec::<usize>::new());
    assert_eq!(s.check_cgi_timeouts(&[t, io, 0, 999], 31001), vec![t]);
    assert_eq!(s.check_timeouts(&[t, io, 0, 999], 1000000), Vec::<usize>::new());
    let page = localhost_rs::response::error_response(504, None);
    assert_eq!(s.finalize_response(t, page.clone(), 31001), Finalized { staged: true, cgi_io: Some(io) });
    assert!(!s.is_overdue(t, 99999));
    assert_eq!(s.connection(t).unwrap().write_buffer, page);
    assert!(page.starts_with(b"HTTP/1.1 504 Gateway Timeout\r\n"));
}

#[test]
fn idle_clients_time_out() {
    let mut s = reactor(1024, 4096);
    let t = s.accept_connection(0, 500).unwrap();
    assert!(!s.is_idle(t, 30500));
    assert!(s.is_idle(t, 30501));
    assert!(!s.is_idle(t, 0));
    assert!(!s.is_idle(999, 30501));
    let u = s.accept_connection(0, 600).unwrap();
    assert_eq!(s.check_timeouts(&[u, t, 999], 30500), Vec::<usize>::new());
    assert_eq!(s.check_timeouts(&[u, t, 999], 30501), vec![t]);
    assert_eq!(s.check_timeouts(&[u, t, 999, t], 30601), vec![u, t, t]);
    assert_eq!(s.check_timeouts(&[], 30601), Vec::<usize>::new());
    assert!(has_expired(2001, 1000, 1));
    assert!(!has_expired(2000, 1000, 1));
    assert!(!has_expired(u64::MAX, 0, u64::MAX));
}

#[test]
fn connection_steps() {
    let mut c = Connection::new(3, 9);
    assert_eq!(c.state, ConnectionState::ReadRequest);
    assert_eq!(c.server_idx, 3);
    assert!(c.drained());
    assert_eq!(c.receive(b"GET / HTTP/1.1\r\n\r\n", 10, 100, 100), ReadStep::Process);
    assert!(c.park(11, 100));
    assert!(!c.park(12, 100));
    assert_eq!(c.state, ConnectionState::CgiPending);
    assert!(!c.is_idle(u64::MAX, 0));
    assert!(c.respond(b"xy".to_vec(), 13, 100));
    assert!(!c.respond(b"zz".to_vec(), 14, 100));
    assert_eq!(c.unsent(), b"xy");
    assert_eq!(c.written(1, 15, 100), WriteStep::Continue);
    assert_eq!(c.unsent(), b"y");
    assert!(!c.drained());
    assert_eq!(c.written(1, 16, 100), WriteStep::Close);
    assert!(c.drained());
    assert!(c.is_idle(16 + 1001, 1));
}

#[test]
fn declared_lengths() {
    assert_eq!(extract_content_length(b"POST / HTTP/1.1\r\nContent-Length : 12\r\n\r\n"), Some(12));
    assert_eq!(extract_content_length(b"CONTENT-LENGTH:3\nX: y\n"), Some(3));
    assert_eq!(extract_content_length(b"Content-Length: x\r\nContent-Length: 3\r\n"), None);
    assert_eq!(extract_content_length(b"Host: h\r\n\r\n"), None);
    assert_eq!(extract_content_length(b"Content-Length: 3\xff\r\n"), None);
    assert_eq!(judge(b"GET / HTTP/1.1\r\n", 10), ReadStep::Continue);
    assert_eq!(judge(b"GET / HTTP/1.1\r\n\r\n", 10), ReadStep::Process);
    assert_eq!(judge(b"GET / HTTP/1.1\r\nContent-Length: 11\r\n\r\n", 10), ReadStep::TooLarge);
    assert_eq!(judge(b"GET / HTTP/1.1\r\nContent-Length: 10\r\n\r\n", 10), ReadStep::Continue);
}

#[test]
fn body_limit_is_the_smaller_of_both() {
    let config = Config {
        servers: vec![server_config(100), server_config(5000)],
        max_server_size: 1000,
        timeout_seconds: 30,
    };
    assert_eq!(config.effective_body_limit(0), 100);
    assert_eq!(config.effective_body_limit(1), 1000);
    assert_eq!(config.effective_body_limit(2), 1000);
}

fn live(s: &Server) -> Vec<usize> {
    (0..400usize)
        .filter(|t| s.classify(*t) != TokenClass::Client || s.connection(*t).is_some())
        .collect()
}

#[test]
fn registered_tokens_follow_the_live_records() {
    let mut s = reactor(1024, 4096);
    let mut registered: Vec<usize> = vec![0];
    assert_eq!(live(&s), registered);
    for round in 0..60u64 {
        let a = s.accept_connection(0, round).unwrap();
        registered.push(a);
        let b = s.accept_connection(0, round).unwrap();
        registered.push(b);
        let io = s.start_cgi_process(a, round).unwrap();
        registered.push(io);
        registered.sort();
        assert_eq!(live(&s), registered);
        if round % 2 == 0 {
            let done = s.finish_cgi(a, round);
            assert_eq!(done.cgi_io, Some(io));
            registered.retain(|t| *t != io);
            assert_eq!(live(&s), registered);
        }
        for t in [a, b] {
            let closed = s.close_connection(t);
            assert!(closed.connection);
            registered.retain(|x| *x != t);
            if let Some(io) = closed.cgi_io {
                registered.retain(|x| *x != io);
            }
        }
        assert_eq!(live(&s), vec![0]);
        assert_eq!(registered, vec![0]);
    }
    assert!((0..400usize).all(|t| s.pending(t).is_none()));
}

fn rank(state: ConnectionState) -> u8 {
    match state {
        ConnectionState::ReadRequest => 0,
        ConnectionState::CgiPending => 1,
        ConnectionState::WriteResponse => 2,
    }
}

#[test]
fn states_and_cursor_never_go_back() {
    let mut s = reactor(1024, 4096);
    let t = s.accept_connection(0, 0).unwrap();
    let mut last_rank = 0u8;
    let mut last_cursor = 0usize;
    let mut look = |s: &Server| {
        let c = s.connection(t).unwrap();
        assert!(rank(c.state) >= last_rank);
        assert!(c.bytes_written >= last_cursor);
        assert!(c.bytes_written <= c.write_buffer.len());
        last_rank = rank(c.state);
        last_cursor = c.bytes_written;
    };
    s.read_from_client(t, ReadOutcome::Data(b"GET /a.sh HTTP/1.1\r\n\r\n".to_vec()), 1);
    look(&s);
    s.start_cgi_process(t, 2);
    look(&s);
    s.read_from_client(t, ReadOutcome::Data(b"more".to_vec()), 3);
    look(&s);
    s.cgi_output(t, b"out", 4);
    look(&s);
    s.finish_cgi(t, 5);
    look(&s);
    s.start_cgi_process(t, 6);
    look(&s);
    s.write_to_client(t, WriteOutcome::Wrote(10), 7);
    look(&s);
    s.finalize_response(t, b"x".to_vec(), 8);
    look(&s);
    s.read_from_client(t, ReadOutcome::Data(b"GET / HTTP/1.1\r\n\r\n".to_vec()), 9);
    look(&s);
    s.write_to_client(t, WriteOutcome::Wrote(1000000), 10);
    look(&s);
}

#[test]
fn events_are_dispatched_by_token() {
    let mut s = reactor(1024, 4096);
    let t = s.accept_connection(0, 0).unwrap();
    let io = s.start_cgi_process(t, 1).unwrap();
    let readable = Readiness { readable: true, writable: false, read_closed: false, write_closed: false };
    let writable = Readiness { readable: false, writable: true, read_closed: false, write_closed: false };
    let hung_up = Readiness { readable: false, writable: false, read_closed: true, write_closed: false };
    assert_eq!(s.handle_event(0, readable), Dispatch::Accept);
    assert_eq!(s.handle_event(io, readable), Dispatch::DrainCgi { client: t });
    assert_eq!(s.handle_event(io, hung_up), Dispatch::DrainCgi { client: t });
    assert_eq!(s.handle_event(io, writable), Dispatch::Nothing);
    assert_eq!(
        s.handle_event(t, hung_up),
        Dispatch::Client { plan: EventPlan { read: false, write: false, close: true } }
    );
    assert_eq!(
        s.handle_event(4242, readable),
        Dispatch::Client { plan: EventPlan { read: false, write: false, close: false } }
    );
}
