use will_serv::dispatch::pick_worker;
use will_serv::http::{
    create_short_circuit_error_response, process_request, process_request_at, resolve_resource,
};
use will_serv::request::{process_buffer, ParseFailure};
use will_serv::resources::load_web_resources_static;
use will_serv::response::{create_response_string, create_response_string_no_body};
use will_serv::string_map::StringMap;
use will_serv::text::{trim_str, usize_to_string};
use will_serv::worker::respond_to_buffer;

fn test_resources() -> StringMap {
    let mut web_resources = StringMap::new();
    web_resources.insert("/".to_string(), "<h1> TEST </h1>".to_string());
    web_resources
}

#[test]
fn test_happy_path() {
    let web_resources = test_resources();
    let get_request_buffer: &str = "GET / 1.1\n\r\n\r\n";
    let response_html = process_request(get_request_buffer, &web_resources);

    assert!(response_html.contains("HTTP/1.1 200 OK"));
    assert!(response_html.contains("<h1> TEST </h1>"));
}

#[test]
fn test_404() {
    let web_resources = test_resources();
    let get_request_buffer: &str = "GET /NONEXISTENT 1.1\n\r\n\r\n";
    let response_html = process_request(get_request_buffer, &web_resources);

    assert!(response_html.contains("HTTP/1.1 404 Not Found"));
}

#[test]
fn test_many_headers() {
    let web_resources = test_resources();
    let get_request_buffer: &str = "GET / 1.1
        QWER: ASDF\nQWER: ASDF\nQWER: ASDF\nQWER: ASDF\nQWER: ASDF\nQWER: ASDF\nQWER: ASDF\nQWER: ASDF\nQWER: ASDF\nQWER: ASDF\nQWER: ASDF\nQWER: ASDF\nQWER: ASDF\nQWER: ASDF\nQWER: ASDF\nQWER: ASDF\nQWER: ASDF\nQWER: ASDF\nQWER: ASDF\nQWER: ASDF\nQWER: ASDF\nQWER: ASDF\nQWER: ASDF\nQWER: ASDF\r\n\r\n";
    let response_html = process_request(get_request_buffer, &web_resources);

    assert!(response_html.contains("HTTP/1.1 200 OK"));
    assert!(response_html.contains("<h1> TEST </h1>"));
}

#[test]
fn test_malformed() {
    let web_resources = test_resources();
    let malformed_request: &str = "INVALIDMETHOD/NONEXISTENT1.1\n\r\r\n";
    let response_html = process_request(malformed_request, &web_resources);

    assert!(response_html.contains("HTTP/1.1 400 Bad Request"));
}

#[test]
fn test_method_parsing() {
    let web_resources = test_resources();
    let get_request_buffer: &str = "GET / 1.1\n\r\n\r\n";
    let response_html = process_request(get_request_buffer, &web_resources);

    assert!(response_html.contains("HTTP/1.1 200 OK"));
    assert!(response_html.contains("<h1> TEST </h1>"));

    let post_request_buffer: &str = "POST / 1.1\n\r\n\r\n";
    let response_html = process_request(post_request_buffer, &web_resources);

    assert!(response_html.contains("HTTP/1.1 405 Method Not Allowed"));
    assert!(response_html.contains("Allow: GET"));
}

#[test]
fn test_exact_success_response() {
    let mut web_resources = StringMap::new();
    web_resources.insert("/".to_string(), "<h1>TEST</h1>".to_string());
    let date = "Thu, 01 Jan 1970 00:00:00 +0000";
    let response = process_request_at("GET / HTTP/1.1\r\n\r\n", &web_resources, date);
    assert!(response.starts_with("HTTP/1.1 200 OK\n"));
    assert!(response.ends_with("\r\n\r\n<h1>TEST</h1>"));
    // The headers as a set: exactly these four, each with its exact value.
    let reparsed = process_buffer(&response).unwrap();
    assert_eq!(reparsed.body, "<h1>TEST</h1>");
    assert_eq!(reparsed.headers.entry_count(), 4);
    assert_eq!(
        reparsed.headers.get(&"Server".to_string()).unwrap(),
        "will-serv/0.1.0"
    );
    assert_eq!(
        reparsed.headers.get(&"Date".to_string()).unwrap(),
        "Thu, 01 Jan 1970 00:00:00 +0000"
    );
    assert_eq!(
        reparsed.headers.get(&"Content-Type".to_string()).unwrap(),
        "text/html; charset=UTF-8"
    );
    assert_eq!(
        reparsed.headers.get(&"Content-Length".to_string()).unwrap(),
        "13"
    );
}

#[test]
fn test_index_fallback() {
    let mut web_resources = StringMap::new();
    web_resources.insert("/docs/index.html".to_string(), "docs home".to_string());
    let response = process_request("GET /docs/ HTTP/1.1\r\n\r\n", &web_resources);
    assert!(response.contains("HTTP/1.1 200 OK"));
    assert!(response.contains("docs home"));

    let response = process_request("GET /docs HTTP/1.1\r\n\r\n", &web_resources);
    assert!(response.contains("HTTP/1.1 404 Not Found"));
}

#[test]
fn test_no_delimiter_is_400() {
    let web_resources = test_resources();
    assert!(matches!(
        process_buffer("GET / HTTP/1.1"),
        Err(ParseFailure::MissingDelimiter)
    ));
    let response = process_request("GET / HTTP/1.1", &web_resources);
    assert!(response.contains("HTTP/1.1 400 Bad Request"));

    let response = process_request("", &web_resources);
    assert!(response.contains("HTTP/1.1 400 Bad Request"));
}

#[test]
fn test_request_line_without_space_is_400() {
    let web_resources = test_resources();
    assert!(matches!(
        process_buffer("GETX\r\n\r\n"),
        Err(ParseFailure::RequestLineWithoutSpace)
    ));
    let response = process_request("GETX\r\n\r\n", &web_resources);
    assert!(response.contains("HTTP/1.1 400 Bad Request"));
}

#[test]
fn test_header_line_without_colon_is_400() {
    let web_resources = test_resources();
    assert!(matches!(
        process_buffer("GET / HTTP/1.1\r\nbadheader\r\n\r\n"),
        Err(ParseFailure::HeaderLineWithoutColon)
    ));
    let response = process_request("GET / HTTP/1.1\r\nbadheader\r\n\r\n", &web_resources);
    assert!(response.contains("HTTP/1.1 400 Bad Request"));
}

#[test]
fn test_parse_request_fields() {
    let req = process_buffer("GET /x HTTP/1.1\r\nHost: example\r\nHost: other\r\n\r\nbodybytes")
        .unwrap();
    assert_eq!(req.method, "GET");
    assert_eq!(req.path, "/x");
    assert_eq!(req.body, "bodybytes");
    let host = req.headers.get(&"Host".to_string()).unwrap();
    assert_eq!(host, "other");
}

#[test]
fn test_header_value_trimmed() {
    let req = process_buffer("GET / HTTP/1.1\r\nK:   spaced value  \r\n\r\n").unwrap();
    let v = req.headers.get(&"K".to_string()).unwrap();
    assert_eq!(v, "spaced value");
}

#[test]
fn test_render_then_parse_round_trip() {
    let mut headers = StringMap::new();
    headers.insert("X-One".to_string(), "alpha".to_string());
    headers.insert("X-Two".to_string(), "beta".to_string());
    let body = "hello body".to_string();
    let rendered = create_response_string(headers, 200, Some(&body));
    let reparsed = process_buffer(&rendered).unwrap();
    assert_eq!(reparsed.body, "hello body");
    assert_eq!(
        reparsed.headers.get(&"X-One".to_string()).unwrap(),
        "alpha"
    );
    assert_eq!(reparsed.headers.get(&"X-Two".to_string()).unwrap(), "beta");
}

#[test]
fn test_body_survives_reparse_with_odd_headers() {
    let mut headers = StringMap::new();
    headers.insert("X-Raw".to_string(), "has\rcarriage".to_string());
    headers.insert("X-Pad".to_string(), " padded ".to_string());
    let body = "a\r\n\r\nb".to_string();
    let rendered = create_response_string(headers, 200, Some(&body));
    let reparsed = process_buffer(&rendered).unwrap();
    assert_eq!(reparsed.body, "a\r\n\r\nb");
    assert_eq!(
        reparsed.headers.get(&"X-Raw".to_string()).unwrap(),
        "has\rcarriage"
    );
    assert_eq!(reparsed.headers.get(&"X-Pad".to_string()).unwrap(), "padded");
}

#[test]
fn test_unknown_code_renders_500() {
    let rendered = create_response_string_no_body(StringMap::new(), 123);
    assert_eq!(rendered, "HTTP/1.1 500 Internal Server Error\r\n\r\n");
}

#[test]
fn test_short_circuit_error_response() {
    let response = create_short_circuit_error_response();
    assert!(response.contains("HTTP/1.1 400 Bad Request"));
    assert!(response.contains("Server: will-serv/0.1.0"));
    assert!(response.contains("Date: "));
}

#[test]
fn test_date_header_survives_reparse() {
    let web_resources = test_resources();
    let response = process_request("GET / 1.1\n\r\n\r\n", &web_resources);
    let reparsed = process_buffer(&response).unwrap();
    let date = reparsed.headers.get(&"Date".to_string()).unwrap();
    assert!(!date.is_empty());
    assert!(!date.contains('\r') && !date.contains('\n'));
    assert_eq!(date.trim(), date.as_str());
}

#[test]
fn test_respond_to_buffer_utf8() {
    let web_resources = test_resources();
    let response = respond_to_buffer(b"GET / HTTP/1.1\r\n\r\n", &web_resources).unwrap();
    assert!(response.contains("HTTP/1.1 200 OK"));

    let not_utf8: &[u8] = &[0xff, 0xfe, 0x47];
    assert!(respond_to_buffer(not_utf8, &web_resources).is_none());
}

#[test]
fn test_pick_worker_in_range() {
    assert_eq!(pick_worker(1), 0);
    for _ in 0..100 {
        assert!(pick_worker(20) < 20);
    }
}

#[test]
fn test_static_resources_loaded() {
    let mut web_resources = StringMap::new();
    load_web_resources_static(&mut web_resources);
    let home = web_resources.get(&"/index.html".to_string()).unwrap();
    assert!(home.contains("Danger"));
    assert!(web_resources
        .get(&"/articles/intro_rust.html".to_string())
        .is_some());
}

#[test]
fn test_resolve_resource_rules() {
    let mut web_resources = StringMap::new();
    web_resources.insert("/a".to_string(), "direct".to_string());
    web_resources.insert("/b/index.html".to_string(), "indexed".to_string());
    assert_eq!(
        resolve_resource(&web_resources, &"/a".to_string()).unwrap(),
        "direct"
    );
    assert_eq!(
        resolve_resource(&web_resources, &"/b/".to_string()).unwrap(),
        "indexed"
    );
    assert!(resolve_resource(&web_resources, &"/b".to_string()).is_none());
    assert!(resolve_resource(&web_resources, &"/c".to_string()).is_none());
}

#[test]
fn test_string_map_last_write_wins() {
    let mut m = StringMap::new();
    m.insert("k".to_string(), "one".to_string());
    m.insert("k".to_string(), "two".to_string());
    assert_eq!(m.entry_count(), 1);
    assert_eq!(m.get(&"k".to_string()).unwrap(), "two");
    assert!(m.contains_key(&"k".to_string()));
    assert!(!m.contains_key(&"missing".to_string()));
}

#[test]
fn test_usize_to_string_renders_decimal() {
    assert_eq!(usize_to_string(0), "0");
    assert_eq!(usize_to_string(7), "7");
    assert_eq!(usize_to_string(1234), "1234");
    assert_eq!(usize_to_string(1000000), "1000000");
}

#[test]
fn test_trim_str_matches_trim() {
    assert_eq!(trim_str("  padded \t"), "padded");
    assert_eq!(trim_str("clean"), "clean");
    assert_eq!(trim_str("   "), "");
}

#[test]
fn test_empty_head_is_405() {
    let web_resources = test_resources();
    let response = process_request("\r\n\r\nleftover", &web_resources);
    assert!(response.contains("HTTP/1.1 405 Method Not Allowed"));
}
