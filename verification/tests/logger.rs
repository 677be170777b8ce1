use revtunnel::logger::{bucket_of, clean_line, render, status_code, Bucket, LogEvent, LoggerState};

fn chars(s: &str) -> Vec<char> {
    s.chars().collect()
}

fn request(line: &str) -> Option<LogEvent> {
    Some(LogEvent::Request { line: line.to_string() })
}

#[test]
fn a_new_state_has_no_timer() {
    assert_eq!(LoggerState::new().timestamp, None);
}

#[test]
fn a_request_line_starts_the_timer() {
    let mut state = LoggerState::new();
    let event = state.observe(b"GET /x HTTP/1.1\r\nHost: foo\r\n\r\n", 1_000);
    assert_eq!(event, request("GET /x"));
    assert_eq!(state.timestamp, Some(1_000));
}

#[test]
fn a_success_status_is_logged_in_green() {
    let mut state = LoggerState::new();
    state.observe(b"GET /x HTTP/1.1\r\n\r\n", 1_000);
    let event = state.observe(b"HTTP/1.1 200 OK\r\nContent-Length: 0\r\n\r\n", 1_250);
    assert_eq!(
        event,
        Some(LogEvent::Response {
            elapsed: 250,
            status: 200,
            bucket: Bucket::Success,
            text: String::from("\u{1b}[32m200 OK\u{1b}[0m"),
        })
    );
    assert_eq!(state.timestamp, None);
}

#[test]
fn not_found_is_logged_in_yellow() {
    let mut state = LoggerState { timestamp: Some(10) };
    let event = state.observe(b"HTTP/1.1 404 Not Found\r\n\r\n", 15);
    assert_eq!(
        event,
        Some(LogEvent::Response {
            elapsed: 5,
            status: 404,
            bucket: Bucket::NotFound,
            text: String::from("\u{1b}[33m404 Not Found\u{1b}[0m"),
        })
    );
    assert_eq!(state.timestamp, None);
}

#[test]
fn a_server_error_is_logged_in_red() {
    let mut state = LoggerState { timestamp: Some(10) };
    let event = state.observe(b"HTTP/1.1 500 Error\r\n\r\n", 10);
    assert_eq!(
        event,
        Some(LogEvent::Response {
            elapsed: 0,
            status: 500,
            bucket: Bucket::Error,
            text: String::from("\u{1b}[31m500 Error\u{1b}[0m"),
        })
    );
}

#[test]
fn a_code_below_200_is_logged_without_colour() {
    let mut state = LoggerState { timestamp: Some(0) };
    let event = state.observe(b"HTTP/1.1 101 Switching Protocols\r\n", 7);
    assert_eq!(
        event,
        Some(LogEvent::Response {
            elapsed: 7,
            status: 101,
            bucket: Bucket::Unclassified,
            text: String::from("101 Switching Protocols"),
        })
    );
}

#[test]
fn other_traffic_is_silent_and_keeps_the_timer() {
    let mut state = LoggerState::new();
    assert_eq!(state.observe(b"hello world\nHTTP/1.1 200 OK\n", 1), None);
    assert_eq!(state.timestamp, None);
    assert_eq!(state.observe(b"GET /x HTTP/1.1\r\n", 2), request("GET /x"));
    assert_eq!(state.observe(b"\x16\x03\x01\x02\x00binary", 3), None);
    assert_eq!(state.observe(b"SSH-2.0-OpenSSH_9.0\r\n", 4), None);
    assert_eq!(state.timestamp, Some(2));
    let event = state.observe(b"HTTP/1.1 200 OK\r\n", 12);
    assert_eq!(
        event,
        Some(LogEvent::Response {
            elapsed: 10,
            status: 200,
            bucket: Bucket::Success,
            text: String::from("\u{1b}[32m200 OK\u{1b}[0m"),
        })
    );
}

#[test]
fn an_empty_read_is_silent() {
    let mut state = LoggerState { timestamp: Some(5) };
    assert_eq!(state.observe(b"", 9), None);
    assert_eq!(state.timestamp, Some(5));
}

#[test]
fn bytes_that_are_not_utf8_are_silent() {
    let mut state = LoggerState { timestamp: Some(5) };
    assert_eq!(state.observe(b"HTTP/1.1 200 OK\r\n\xff\xfe", 9), None);
    assert_eq!(state.timestamp, Some(5));
    assert_eq!(clean_line(b"GET / HTTP/1.1\n\xc3"), None);
}

#[test]
fn a_status_line_that_does_not_parse_stops_the_timer_silently() {
    let mut state = LoggerState { timestamp: Some(5) };
    assert_eq!(state.observe(b"HTTP/1.1 abc OK\r\n", 9), None);
    assert_eq!(state.timestamp, None);
    let mut state = LoggerState { timestamp: Some(5) };
    assert_eq!(state.observe(b"HTTP/1.1 200\r\n", 9), None);
    assert_eq!(state.timestamp, None);
}

#[test]
fn a_clock_that_went_back_gives_zero() {
    let mut state = LoggerState { timestamp: Some(100) };
    match state.observe(b"HTTP/1.1 204 No Content\r\n", 40) {
        Some(LogEvent::Response { elapsed, status, .. }) => {
            assert_eq!(elapsed, 0);
            assert_eq!(status, 204);
        }
        other => panic!("{:?}", other),
    }
}

#[test]
fn only_the_first_line_counts() {
    assert_eq!(clean_line(b"POST /a HTTP/1.1\nGET /b HTTP/1.1\n"), Some(chars("POST /a")));
    assert_eq!(clean_line(b"\nGET /b HTTP/1.1\n"), None);
    assert_eq!(clean_line(b"GET /b HTTP/1.1"), Some(chars("GET /b")));
    assert_eq!(clean_line(b"GET /b HTTP/1.0\r\n"), None);
}

#[test]
fn the_token_is_removed_wherever_it_stands() {
    assert_eq!(clean_line(b"HTTP/1.1 a HTTP/1.1 b HTTP/1.1\r\n"), Some(chars("a  b")));
    assert_eq!(clean_line(b"HTTP/1.1HTTP/1.1\n"), Some(chars("")));
    assert_eq!(
        clean_line("  \t GET /\u{a0}x HTTP/1.1 \u{2003}\r\n".as_bytes()),
        Some(chars("GET /\u{a0}x"))
    );
}

#[test]
fn status_codes_fall_into_buckets() {
    assert_eq!(bucket_of(404), Bucket::NotFound);
    assert_eq!(bucket_of(400), Bucket::Error);
    assert_eq!(bucket_of(403), Bucket::Error);
    assert_eq!(bucket_of(405), Bucket::Error);
    assert_eq!(bucket_of(599), Bucket::Error);
    assert_eq!(bucket_of(i32::MAX), Bucket::Error);
    assert_eq!(bucket_of(200), Bucket::Success);
    assert_eq!(bucket_of(302), Bucket::Success);
    assert_eq!(bucket_of(399), Bucket::Success);
    assert_eq!(bucket_of(199), Bucket::Unclassified);
    assert_eq!(bucket_of(0), Bucket::Unclassified);
    assert_eq!(bucket_of(-404), Bucket::Unclassified);
}

#[test]
fn the_status_is_what_stands_before_the_first_blank() {
    assert_eq!(status_code(&chars("200 OK")), Some(200));
    assert_eq!(status_code(&chars("404 Not Found")), Some(404));
    assert_eq!(status_code(&chars("+7 x")), Some(7));
    assert_eq!(status_code(&chars("-1 x")), Some(-1));
    assert_eq!(status_code(&chars("200")), None);
    assert_eq!(status_code(&chars(" 200 OK")), None);
    assert_eq!(status_code(&chars("GET /x")), None);
    assert_eq!(status_code(&chars("")), None);
}

#[test]
fn a_line_is_rendered_in_its_bucket_colour() {
    assert_eq!(render(&chars("200 OK"), 200), "\u{1b}[32m200 OK\u{1b}[0m");
    assert_eq!(render(&chars("404 Not Found"), 404), "\u{1b}[33m404 Not Found\u{1b}[0m");
    assert_eq!(render(&chars("500 Error"), 500), "\u{1b}[31m500 Error\u{1b}[0m");
    assert_eq!(render(&chars("100 Continue"), 100), "100 Continue");
    assert_eq!(render(&chars("-5 x"), -5), "-5 x");
    assert_eq!(render(&chars(""), 301), "\u{1b}[32m\u{1b}[0m");
}

#[test]
fn rendering_is_what_ansi_term_paints() {
    assert_eq!(
        render(&chars("404 gone \u{2713}"), 404),
        ansi_term::Colour::Yellow.paint("404 gone \u{2713}").to_string()
    );
    assert_eq!(render(&chars("503 x"), 503), ansi_term::Colour::Red.paint("503 x").to_string());
    assert_eq!(render(&chars("201 x"), 201), ansi_term::Colour::Green.paint("201 x").to_string());
}

#[test]
fn a_request_after_a_response_starts_a_new_timer() {
    let mut state = LoggerState::new();
    assert_eq!(state.observe(b"GET /a HTTP/1.1\r\n", 1), request("GET /a"));
    assert!(state.observe(b"HTTP/1.1 200 OK\r\n", 2).is_some());
    assert_eq!(state.observe(b"GET /b HTTP/1.1\r\n", 3), request("GET /b"));
    assert_eq!(state.timestamp, Some(3));
}

#[test]
fn an_event_clones_to_an_equal_one() {
    let event = LogEvent::Response {
        elapsed: 1,
        status: 200,
        bucket: Bucket::Success,
        text: String::from("x"),
    };
    assert_eq!(event.clone(), event);
    let event = LogEvent::Request { line: String::from("GET /") };
    assert_eq!(event.clone(), event);
}
