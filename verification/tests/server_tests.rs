//! Connection-level scenarios: one request line in, one response out.
use audio_store::response::{
    content_ok_response, invalid_request_response, not_found_header, root_header,
    upload_ok_response,
};
use audio_store::route::{route_request, RouteDecision};

/// The raw first read of a connection: the request bytes in a zero-filled
/// 1024-byte buffer, as a single short read leaves them.
fn read_buffer(request: &[u8]) -> Vec<u8> {
    let mut v = request.to_vec();
    v.resize(1024, 0);
    v
}

#[test]
fn test_handle_connection_file_upload() {
    let buf = read_buffer(b"POST /files/tone-880.wav HTTP/1.1\r\n");
    match route_request(&buf) {
        RouteDecision::Upload { filename } => {
            let name = filename.expect("name capture");
            assert_eq!(name, b"tone-880.wav".to_vec());
            let response = upload_ok_response(&name);
            assert!(response.starts_with(b"HTTP/1.1 200 OK\r\n"));
        },
        _ => panic!("expected an upload decision"),
    }
}

#[test]
fn test_handle_connection_file_list() {
    let buf = read_buffer(b"GET /files HTTP/1.1\r\n");
    match route_request(&buf) {
        RouteDecision::List { raw } => {
            assert_eq!(raw, b"GET /files".to_vec());
            let response = audio_store::listing::list_response(&raw, &Vec::new());
            assert_eq!(
                response,
                b"HTTP/1.1 200 OK\r\nContent-Type: application/json\r\n\r\n[]\r\n".to_vec()
            );
        },
        _ => panic!("expected a list decision"),
    }
}

#[test]
fn test_handle_connection_file_content() {
    let buf = read_buffer(b"GET /content/tone-880.wav HTTP/1.1\r\n");
    match route_request(&buf) {
        RouteDecision::Content { filename } => {
            let name = filename.expect("name capture");
            assert_eq!(name, b"tone-880.wav".to_vec());
            let response = content_ok_response(&name, &b"abc".to_vec());
            assert!(response.starts_with(b"HTTP/1.1 200 OK\r\n"));
            assert!(response.ends_with(b"\r\n\r\nabc"));
        },
        _ => panic!("expected a content decision"),
    }
}

#[test]
fn test_handle_connection_file_metadata() {
    let buf = read_buffer(b"GET /metadata/tone-880.wav HTTP/1.1\r\n");
    match route_request(&buf) {
        RouteDecision::Metadata { filename } => {
            let name = filename.expect("name capture");
            assert_eq!(name, b"tone-880.wav".to_vec());
            let response = audio_store::response::metadata_ok_response(&name, 42, &None);
            let body = b"{\"name\":\"tone-880.wav\",\"size\":42,\"duration\":null}";
            assert!(response.ends_with(body));
        },
        _ => panic!("expected a metadata decision"),
    }
}

#[test]
fn test_handle_connection_root() {
    let buf = read_buffer(b"GET / HTTP/1.1\r\n");
    assert!(matches!(route_request(&buf), RouteDecision::Root));
    let response = root_header();
    assert!(response.starts_with(b"HTTP/1.1 200 OK\r\n"));
}

#[test]
fn test_handle_connection_not_found() {
    let buf = read_buffer(b"GET /nonexistent HTTP/1.1\r\n");
    assert!(matches!(route_request(&buf), RouteDecision::NotFound));
    let response = not_found_header();
    println!("{:?}", String::from_utf8_lossy(&response));
    assert!(response.starts_with(b"HTTP/1.1 404 NOT FOUND\r\n"));
}

#[test]
fn test_upload_without_name_is_client_error() {
    let buf = read_buffer(b"POST /files/ HTTP/1.1\r\n");
    match route_request(&buf) {
        RouteDecision::Upload { filename } => {
            assert!(filename.is_none());
            let response = invalid_request_response();
            assert_eq!(
                response,
                b"HTTP/1.1 400 BAD REQUEST\r\n\r\nInvalid request".to_vec()
            );
        },
        _ => panic!("expected an upload decision"),
    }
}
