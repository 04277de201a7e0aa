use asset_discovery::server::{
    add_cors_headers, find_available_port, handle_request, server_address, server_url,
    start_local_server, ActiveServer, Body, FileRead, Header, HttpResponse, PortProbe,
    ServerError, ServerSession, StartAttempt, DEFAULT_PORT, PORT_SPAN,
};

fn header(name: &str, value: &str) -> Header {
    Header { name: name.to_string(), value: value.to_string() }
}

fn cors() -> Vec<Header> {
    vec![
        header("Access-Control-Allow-Origin", "*"),
        header("Access-Control-Allow-Methods", "GET, POST, OPTIONS"),
        header("Access-Control-Allow-Headers", "Content-Type"),
    ]
}

#[test]
fn existing_file_is_served_with_its_bytes() {
    let bytes = vec![0u8, 159, 146, 150, 255];
    let response = handle_request("/srv/a/b.png", FileRead::Loaded(bytes.clone()));
    assert_eq!(response.status, 200);
    assert_eq!(response.body, Body::Bytes(bytes));
    let mut expected = vec![header("Content-Type", "image/png")];
    expected.extend(cors());
    assert_eq!(response.headers, expected);
    assert!(response.headers.contains(&header("Access-Control-Allow-Origin", "*")));
}

#[test]
fn missing_file_is_not_found() {
    let response = handle_request("/srv/nope.png", FileRead::Missing);
    assert_eq!(response.status, 404);
    assert_eq!(response.body, Body::Text("File not found".to_string()));
    assert_eq!(response.headers, cors());
}

#[test]
fn unreadable_file_is_a_server_error() {
    let response = handle_request("/srv/a.png", FileRead::Failed("permission denied".to_string()));
    assert_eq!(response.status, 500);
    assert_eq!(response.body, Body::Text("Internal Server Error: permission denied".to_string()));
    assert_eq!(response.headers, cors());
}

#[test]
fn content_type_follows_the_extension() {
    let json = handle_request("/srv/m.JSON", FileRead::Loaded(vec![]));
    assert_eq!(json.headers[0], header("Content-Type", "application/json"));
    let unknown = handle_request("/srv/m.moc3", FileRead::Loaded(vec![]));
    assert_eq!(unknown.headers[0], header("Content-Type", "application/octet-stream"));
}

#[test]
fn cors_headers_follow_the_existing_ones() {
    let response = HttpResponse {
        status: 204,
        headers: vec![header("X-Test", "1")],
        body: Body::Bytes(vec![1, 2]),
    };
    let out = add_cors_headers(response);
    assert_eq!(out.status, 204);
    assert_eq!(out.body, Body::Bytes(vec![1, 2]));
    let mut expected = vec![header("X-Test", "1")];
    expected.extend(cors());
    assert_eq!(out.headers, expected);
}

#[test]
fn address_and_url() {
    assert_eq!(server_url(8000), "http://127.0.0.1:8000");
    assert_eq!(server_address(8000), "127.0.0.1:8000");
    assert_eq!(server_url(0), "http://127.0.0.1:0");
    assert_eq!(server_url(7), "http://127.0.0.1:7");
    assert_eq!(server_url(8100), "http://127.0.0.1:8100");
    assert_eq!(server_url(65535), "http://127.0.0.1:65535");
    assert_eq!(server_address(10), "127.0.0.1:10");
}

#[test]
fn port_search_steps() {
    assert_eq!(DEFAULT_PORT, 8000);
    assert_eq!(PORT_SPAN, 100);
    assert_eq!(find_available_port(8000, None), PortProbe::Try(8000));
    assert_eq!(find_available_port(8000, Some((8000, true))), PortProbe::Found(8000));
    assert_eq!(find_available_port(8000, Some((8000, false))), PortProbe::Try(8001));
    assert_eq!(find_available_port(8000, Some((8099, false))), PortProbe::Try(8100));
    assert_eq!(find_available_port(8000, Some((8100, true))), PortProbe::Found(8100));
    assert_eq!(find_available_port(8000, Some((8100, false))), PortProbe::Exhausted);
}

fn run_search(start: u16, free: &[u16]) -> (Option<u16>, Vec<u16>) {
    let mut tried = Vec::new();
    let mut last = None;
    loop {
        match find_available_port(start, last) {
            PortProbe::Try(port) => {
                tried.push(port);
                last = Some((port, free.contains(&port)));
            }
            PortProbe::Found(port) => return (Some(port), tried),
            PortProbe::Exhausted => return (None, tried),
        }
    }
}

#[test]
fn search_takes_the_first_free_port() {
    assert_eq!(run_search(8000, &[8003, 8005]), (Some(8003), vec![8000, 8001, 8002, 8003]));
    assert_eq!(run_search(8000, &[8000]), (Some(8000), vec![8000]));
    let (found, tried) = run_search(8000, &[8101, 7999]);
    assert_eq!(found, None);
    assert_eq!(tried, (8000..=8100).collect::<Vec<u16>>());
    assert_eq!(run_search(65435, &[65535]).0, Some(65535));
}

#[test]
fn session_holds_at_most_one_server() {
    let mut session: ServerSession<u32> = ServerSession::new();
    assert_eq!(session.port(), None);
    assert!(session.supersede().is_none());
    let started = start_local_server(
        &mut session,
        "/srv/a".to_string(),
        StartAttempt::Listening { port: 8001, handle: 11 },
    );
    assert_eq!(started, Ok("http://127.0.0.1:8001".to_string()));
    assert_eq!(session.port(), Some(8001));
    let previous = session.supersede().expect("a server was active");
    assert_eq!((previous.port, previous.base_path.as_str(), previous.handle), (8001, "/srv/a", 11));
    assert_eq!(session.port(), None);
    let again = start_local_server(
        &mut session,
        "/srv/b".to_string(),
        StartAttempt::Listening { port: 8002, handle: 12 },
    );
    assert_eq!(again, Ok("http://127.0.0.1:8002".to_string()));
    let replaced = start_local_server(
        &mut session,
        "/srv/c".to_string(),
        StartAttempt::Listening { port: 8003, handle: 13 },
    );
    assert_eq!(replaced, Ok("http://127.0.0.1:8003".to_string()));
    match &session.active {
        Some(ActiveServer { port, base_path, handle }) => {
            assert_eq!((*port, base_path.as_str(), *handle), (8003, "/srv/c", 13));
        }
        None => panic!("the new server is active"),
    }
}

#[test]
fn failed_start_leaves_no_server() {
    let mut session: ServerSession<u32> = ServerSession::new();
    let _ = start_local_server(
        &mut session,
        "/srv/a".to_string(),
        StartAttempt::Listening { port: 8001, handle: 1 },
    );
    let none = start_local_server(&mut session, "/srv/b".to_string(), StartAttempt::NoPortAvailable);
    assert_eq!(none, Err(ServerError::NoPortAvailable));
    assert_eq!(session.port(), None);
    let bind = start_local_server(&mut session, "/srv/b".to_string(), StartAttempt::BindFailed);
    assert_eq!(bind, Err(ServerError::BindFailed));
    assert_eq!(session.port(), None);
}
