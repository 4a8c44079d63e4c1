use netstack::application::{respond, route, Api, BodyDecoder, ReqPath, Route};
use netstack::http::{HttpReq, HttpResp, PackedHttpResp};
use netstack::proto::{NetworkBuffer, StackError};

struct JsonPair;

impl BodyDecoder for JsonPair {
    fn decode(&mut self, body: &[u8]) -> bool {
        match serde_json::from_slice::<serde_json::Value>(body) {
            Ok(v) => v.get("key1").map_or(false, |k| k.is_string()) && v.get("key2").map_or(false, |k| k.is_string()),
            Err(_) => false,
        }
    }
}

fn req(text: &[u8]) -> HttpReq<NetworkBuffer> {
    HttpReq::parse(NetworkBuffer::from_slice(text)).ok().unwrap()
}

#[test]
fn parses_request_line_headers_and_body() {
    let text = b"POST /req HTTP/1.1\r\nHost: a\r\nContent-Length: 4\r\n\r\nbody";
    let r = req(text);
    assert_eq!(r.method(), b"POST");
    assert_eq!(r.path(), b"/req");
    assert_eq!(r.version(), b"HTTP/1.1");
    let headers: Vec<&[u8]> = r.headers();
    assert_eq!(headers, vec![&b"Host: a"[..], &b"Content-Length: 4"[..]]);
    assert_eq!(r.data(), b"body");
    assert_eq!(r.into_inner().as_slice(), text);
}

#[test]
fn reassembled_request_equals_input() {
    for text in [
        &b"GET /data HTTP/1.1\r\n\r\n"[..],
        b"GET / HTTP/1.0\r\nA: 1\r\nB: 2\r\nC: 3\r\n\r\nxyz\r\n\r\n",
        b"PUT /x HTTP/1.1\r\nOnly: one\r\n\r\n",
    ] {
        let r = req(text);
        let mut back = Vec::new();
        back.extend_from_slice(r.method());
        back.push(b' ');
        back.extend_from_slice(r.path());
        back.push(b' ');
        back.extend_from_slice(r.version());
        back.extend_from_slice(b"\r\n");
        for h in r.headers() {
            back.extend_from_slice(h);
            back.extend_from_slice(b"\r\n");
        }
        back.extend_from_slice(b"\r\n");
        back.extend_from_slice(r.data());
        assert_eq!(back.as_slice(), text);
    }
}

#[test]
fn body_without_empty_line_starts_after_last_header() {
    let r = req(b"GET / HTTP/1.1\r\nA: 1\r\nrest");
    assert_eq!(r.headers(), vec![&b"A: 1"[..]]);
    assert_eq!(r.data(), b"rest");
}

#[test]
fn third_field_stops_at_a_space() {
    let r = req(b"GET /p HTTP/1.1 extra\r\n\r\n");
    assert_eq!(r.version(), b"HTTP/1.1");
}

#[test]
fn rejects_requests_without_line_end_or_fields() {
    let none = HttpReq::parse(NetworkBuffer::from_slice(b"GET / HTTP/1.1"));
    assert_eq!(none.err(), Some(StackError::RequestLine));
    let one_space = HttpReq::parse(NetworkBuffer::from_slice(b"GET /\r\n\r\n"));
    assert_eq!(one_space.err(), Some(StackError::RequestLine));
    let no_space = HttpReq::parse(NetworkBuffer::from_slice(b"GET\r\n\r\n"));
    assert_eq!(no_space.err(), Some(StackError::RequestLine));
    let space_after_line = HttpReq::parse(NetworkBuffer::from_slice(b"GET\r\n a b\r\n"));
    assert_eq!(space_after_line.err(), Some(StackError::RequestLine));
}

#[test]
fn ok_response_parses_back() {
    let bytes = HttpResp::ok().to_buf();
    assert_eq!(bytes.as_slice(), b"HTTP/1.1 200 OK\r\nContent-Length: 0\r\n\r\n");
    let resp = PackedHttpResp::parse(bytes).ok().unwrap();
    assert_eq!(resp.version(), b"HTTP/1.1");
    assert_eq!(resp.code(), b"200");
    assert_eq!(resp.code_status(), b"OK");
    assert_eq!(resp.headers(), vec![&b"Content-Length: 0"[..]]);
    assert_eq!(resp.data(), b"");
    assert_eq!(resp.into_inner().len(), 38);
}

#[test]
fn bad_request_response_bytes() {
    let bytes = HttpResp::bad_request().to_buf();
    assert_eq!(bytes.as_slice(), b"HTTP/1.1 400 Bad Request\r\nContent-Length: 0\r\n\r\n");
    let resp = PackedHttpResp::parse(bytes).ok().unwrap();
    assert_eq!(resp.code(), b"400");
    assert_eq!(resp.code_status(), b"Bad");
}

#[test]
fn routes_match_exact_paths() {
    assert_eq!(route(b"/data"), Route::Data);
    assert_eq!(route(b"/req"), Route::Req);
    assert_eq!(route(b"/data/"), Route::Unmatched);
    assert_eq!(route(b"/"), Route::Unmatched);
    assert_eq!(respond(Route::Req, false).to_buf().as_slice(), HttpResp::bad_request().to_buf().as_slice());
    assert_eq!(respond(Route::Req, true).to_buf().as_slice(), HttpResp::ok().to_buf().as_slice());
    assert_eq!(respond(Route::Unmatched, false).to_buf().as_slice(), HttpResp::ok().to_buf().as_slice());
}

#[test]
fn json_route_answers_200_or_400() {
    let mut api = Api::new(JsonPair);
    let good = req(b"POST /req HTTP/1.1\r\nContent-Length: 30\r\n\r\n{\"key1\":\"a\",\"key2\":\"b\"}");
    assert!(api.on_request(&good).to_buf().as_slice().starts_with(b"HTTP/1.1 200 OK\r\n"));
    let bad = req(b"POST /req HTTP/1.1\r\nContent-Length: 30\r\n\r\n{\"key1\":\"a\",\"key2\":");
    assert!(api.on_request(&bad).to_buf().as_slice().starts_with(b"HTTP/1.1 400 "));
    let data = req(b"GET /data HTTP/1.1\r\n\r\n");
    assert!(api.on_request(&data).to_buf().as_slice().starts_with(b"HTTP/1.1 200 OK\r\n"));
    let other = req(b"GET /elsewhere HTTP/1.1\r\n\r\nnot json");
    assert!(api.on_request(&other).to_buf().as_slice().starts_with(b"HTTP/1.1 200 OK\r\n"));
}

#[test]
fn path_extractor_copies_the_path() {
    let r = req(b"GET /data HTTP/1.1\r\n\r\n");
    assert_eq!(ReqPath::of(&r).0, b"/data".to_vec());
}
