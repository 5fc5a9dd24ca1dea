use roadrunner::request::classify;
use roadrunner::request::compose_response;
use roadrunner::request::decimal_string;
use roadrunner::request::handle_connection;
use roadrunner::request::Route;
use roadrunner::request::REQUEST_BUFFER_LEN;

fn padded(request: &[u8]) -> Vec<u8> {
    let mut buffer = vec![0u8; REQUEST_BUFFER_LEN];
    buffer[..request.len()].copy_from_slice(request);
    buffer
}

#[test]
fn front_page_request_is_served() {
    let plan = handle_connection(b"GET / HTTP/1.1\r\n");
    assert_eq!(plan.status_line, "HTTP/1.1 200 OK");
    assert_eq!(plan.filename, "hello.html");
    assert_eq!(plan.delay_secs, 0);
}

#[test]
fn slow_page_request_is_served_after_five_seconds() {
    let plan = handle_connection(b"GET /sleep HTTP/1.1\r\n");
    assert_eq!(plan.status_line, "HTTP/1.1 200 OK");
    assert_eq!(plan.filename, "hello.html");
    assert_eq!(plan.delay_secs, 5);
}

#[test]
fn any_other_request_is_not_found() {
    let plan = handle_connection(b"GET /other HTTP/1.1\r\n");
    assert_eq!(plan.status_line, "HTTP/1.1 404 NOT FOUND");
    assert_eq!(plan.filename, "404.html");
    assert_eq!(plan.delay_secs, 0);
}

#[test]
fn classify_reads_only_the_prefix() {
    assert_eq!(
        classify(b"GET / HTTP/1.1\r\nHost: localhost:7878\r\nAccept: */*\r\n\r\n"),
        Route::Home
    );
    assert_eq!(
        classify(b"GET /sleep HTTP/1.1\r\nHost: localhost:7878\r\n\r\n"),
        Route::Sleep
    );
}

#[test]
fn classify_on_a_zero_padded_buffer() {
    assert_eq!(REQUEST_BUFFER_LEN, 1024);
    assert_eq!(classify(&padded(b"GET / HTTP/1.1\r\n")), Route::Home);
    assert_eq!(classify(&padded(b"GET /sleep HTTP/1.1\r\n")), Route::Sleep);
    assert_eq!(classify(&padded(b"")), Route::NotFound);
    assert_eq!(classify(&padded(b"GET / HTTP/1.1\r")), Route::NotFound);
}

#[test]
fn classify_rejects_near_misses() {
    assert_eq!(classify(b""), Route::NotFound);
    assert_eq!(classify(b"GET"), Route::NotFound);
    assert_eq!(classify(b"GET / HTTP/1.1\r"), Route::NotFound);
    assert_eq!(classify(b"GET / HTTP/1.1\n"), Route::NotFound);
    assert_eq!(classify(b"GET / HTTP/1.0\r\n"), Route::NotFound);
    assert_eq!(classify(b"get / HTTP/1.1\r\n"), Route::NotFound);
    assert_eq!(classify(b" GET / HTTP/1.1\r\n"), Route::NotFound);
    assert_eq!(classify(b"POST / HTTP/1.1\r\n"), Route::NotFound);
    assert_eq!(classify(b"GET /sleep HTTP/1.1\r"), Route::NotFound);
    assert_eq!(classify(b"GET /sleeping HTTP/1.1\r\n"), Route::NotFound);
    assert_eq!(classify(b"GET /index.html HTTP/1.1\r\n"), Route::NotFound);
}

#[test]
fn routes_name_their_answers() {
    assert_eq!(Route::Home.status_line(), "HTTP/1.1 200 OK");
    assert_eq!(Route::Sleep.status_line(), "HTTP/1.1 200 OK");
    assert_eq!(Route::NotFound.status_line(), "HTTP/1.1 404 NOT FOUND");
    assert_eq!(Route::Home.filename(), "hello.html");
    assert_eq!(Route::Sleep.filename(), "hello.html");
    assert_eq!(Route::NotFound.filename(), "404.html");
    assert_eq!(Route::Home.delay_secs(), 0);
    assert_eq!(Route::Sleep.delay_secs(), 5);
    assert_eq!(Route::NotFound.delay_secs(), 0);
}

#[test]
fn response_is_status_length_and_body() {
    let body = "<!DOCTYPE html>\n<html><body><h1>Hello!</h1></body></html>\n";
    let response = compose_response("HTTP/1.1 200 OK", body);
    assert_eq!(
        response,
        "HTTP/1.1 200 OK\r\nContent-Length: 58\r\n\r\n<!DOCTYPE html>\n<html><body><h1>Hello!</h1></body></html>\n"
    );
    assert_eq!(
        response,
        format!("{}\r\nContent-Length: {}\r\n\r\n{}", "HTTP/1.1 200 OK", body.len(), body)
    );
}

#[test]
fn response_to_an_unknown_request() {
    let response = compose_response("HTTP/1.1 404 NOT FOUND", "Oops!");
    assert_eq!(
        response.as_bytes(),
        b"HTTP/1.1 404 NOT FOUND\r\nContent-Length: 5\r\n\r\nOops!"
    );
}

#[test]
fn response_with_an_empty_body() {
    assert_eq!(
        compose_response("HTTP/1.1 200 OK", ""),
        "HTTP/1.1 200 OK\r\nContent-Length: 0\r\n\r\n"
    );
}

#[test]
fn response_length_counts_bytes() {
    assert_eq!(
        compose_response("HTTP/1.1 200 OK", "h\u{e9}llo \u{4e16}\u{754c}"),
        "HTTP/1.1 200 OK\r\nContent-Length: 13\r\n\r\nh\u{e9}llo \u{4e16}\u{754c}"
    );
}

#[test]
fn response_with_a_long_body() {
    let body = "x".repeat(1024);
    let response = compose_response("HTTP/1.1 200 OK", &body);
    assert!(response.starts_with("HTTP/1.1 200 OK\r\nContent-Length: 1024\r\n\r\nxxx"));
    assert_eq!(response.len(), 15 + 18 + 4 + 4 + 1024);
}

#[test]
fn decimal_string_writes_base_ten() {
    assert_eq!(decimal_string(0), "0");
    assert_eq!(decimal_string(7), "7");
    assert_eq!(decimal_string(9), "9");
    assert_eq!(decimal_string(10), "10");
    assert_eq!(decimal_string(58), "58");
    assert_eq!(decimal_string(100), "100");
    assert_eq!(decimal_string(1024), "1024");
    assert_eq!(decimal_string(9_876_543_210), "9876543210");
    assert_eq!(decimal_string(usize::MAX), format!("{}", usize::MAX));
}

#[test]
fn decimal_string_agrees_with_std() {
    let mut n: usize = 0;
    while n < 3000 {
        assert_eq!(decimal_string(n), format!("{}", n));
        n += 1;
    }
}
