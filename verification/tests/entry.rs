use haproxy::entry::{Error, LogEntry};
use haproxy::slicer::SliceError;

#[test]
fn parse_string() {
    let sample = ["haproxy[14389]: 10.0.1.2:33317 [06/Feb/2009:12:14:14.655] ",
                  "http-in static/srv1 10/0/30/69/109 200 2750 cookie_in cookie_out ---- ",
                  "1/1/1/1/0 0/0 {1wt.eu} {} \"GET /index.html HTTP/1.1\""].concat();
    let entry = LogEntry::from_bytes(sample.as_bytes()).unwrap();

    assert_eq!(entry.process_name, b"haproxy");
    assert_eq!(entry.pid, b"14389");
    assert_eq!(entry.client_ip, b"10.0.1.2");
    assert_eq!(entry.client_port, b"33317");
    assert_eq!(entry.accept_date, b"06/Feb/2009:12:14:14.655");
    assert_eq!(entry.frontend_name, b"http-in");
    assert_eq!(entry.backend_name, b"static");
    assert_eq!(entry.server_name, b"srv1");
    assert_eq!(entry.request_time, b"10");
    assert_eq!(entry.queue_time, b"0");
    assert_eq!(entry.connect_time, b"30");
    assert_eq!(entry.response_time, b"69");
    assert_eq!(entry.total_time, b"109");
    assert_eq!(entry.status_code, b"200");
    assert_eq!(entry.bytes_read, b"2750");
    assert_eq!(entry.captured_request_cookie, b"cookie_in");
    assert_eq!(entry.captured_response_cookie, b"cookie_out");
    assert_eq!(entry.termination_state, b"----");
    assert_eq!(entry.active_connections, b"1");
    assert_eq!(entry.frontend_connections, b"1");
    assert_eq!(entry.backend_connections, b"1");
    assert_eq!(entry.server_connections, b"1");
    assert_eq!(entry.retried_connections, b"0");
    assert_eq!(entry.server_queue, b"0");
    assert_eq!(entry.backend_queue, b"0");
    assert_eq!(entry.captures[0], b"1wt.eu");
    assert_eq!(entry.captures[1], b"");
    assert_eq!(entry.http_request, b"GET /index.html HTTP/1.1");
}

#[test]
fn parse_incomplete_http_request() {
    let sample = ["haproxy[14389]: 10.0.1.2:33317 [06/Feb/2009:12:14:14.655] ",
                  "http-in static/srv1 10/0/30/69/109 200 2750 cookie_in cookie_out ---- ",
                  "1/1/1/1/0 0/0 {1wt.eu} {} \"GET /index.h"].concat();
    let entry = LogEntry::from_bytes(sample.as_bytes()).unwrap();
    assert_eq!(entry.http_request, b"GET /index.h");
}

#[test]
fn parse_one_capture_only() {
    let sample = ["haproxy[14389]: 10.0.1.2:33317 [06/Feb/2009:12:14:14.655] ",
                  "http-in static/srv1 10/0/30/69/109 200 2750 cookie_in cookie_out ---- ",
                  "1/1/1/1/0 0/0 {1wt.eu} \"GET /index.html HTTP/1.1\""].concat();
    let entry = LogEntry::from_bytes(sample.as_bytes()).unwrap();
    assert_eq!(entry.captures[0], b"1wt.eu");
    assert_eq!(entry.captures[1], b"");
    assert_eq!(entry.http_request, b"GET /index.html HTTP/1.1");
}

#[test]
fn parse_no_capture() {
    let sample = ["haproxy[14389]: 10.0.1.2:33317 [06/Feb/2009:12:14:14.655] ",
                  "http-in static/srv1 10/0/30/69/109 200 2750 cookie_in cookie_out ---- ",
                  "1/1/1/1/0 0/0 \"GET /index.html HTTP/1.1\""].concat();
    let entry = LogEntry::from_bytes(sample.as_bytes()).unwrap();
    assert_eq!(entry.captures[0], b"");
    assert_eq!(entry.captures[1], b"");
    assert_eq!(entry.http_request, b"GET /index.html HTTP/1.1");
}

#[test]
fn optional_parsing() {
    let sample = ["haproxy[14389]: 10.0.1.2:33317 [06/Feb/2009:12:14:14.655] ",
                  "http-in static/srv1 10/0/30/69/109 200 2750 cookie_in cookie_out ---- ",
                  "1/1/1/1/0 0/0 {1wt.eu} {} \"GET /index.html HTTP/1.1\""].concat();

    let entry = LogEntry::from_bytes(sample.as_bytes()).unwrap();
    assert_eq!(entry.http_method().unwrap(), b"GET");
    assert_eq!(entry.http_uri().unwrap(), b"/index.html");
    assert_eq!(entry.http_version().unwrap(), b"HTTP/1.1");
    assert_eq!(entry.captured_header(0, 0).unwrap(), b"1wt.eu");
}

fn sample_line() -> String {
    ["haproxy[14389]: 10.0.1.2:33317 [06/Feb/2009:12:14:14.655] ",
     "http-in static/srv1 10/0/30/69/109 200 2750 cookie_in cookie_out ---- ",
     "1/1/1/1/0 0/0 {1wt.eu} {} \"GET /index.html HTTP/1.1\""].concat()
}

fn slice_error_of(line: &[u8]) -> SliceError {
    match LogEntry::from_bytes(line) {
        Ok(_) => panic!("the line parsed"),
        Err(Error::SliceError(e)) => e,
        Err(e) => panic!("unexpected error {:?}", e),
    }
}

#[test]
fn parse_missing_bracket_after_pid() {
    let line = "haproxy[14389: 10.0.1.2:33317 06/Feb/2009:12:14:14.655 http-in static/srv1";
    assert!(matches!(slice_error_of(line.as_bytes()), SliceError::ExpectedToken(b']')));
}

#[test]
fn parse_empty_line() {
    assert!(matches!(slice_error_of(b""), SliceError::ExpectedToken(b'[')));
}

#[test]
fn parse_missing_literal_after_pid() {
    let line = sample_line().replace("]: ", "] ");
    assert!(matches!(slice_error_of(line.as_bytes()), SliceError::UnexpectedTokens));
}

#[test]
fn parse_line_cut_inside_the_fixed_fields() {
    let line = "haproxy[14389]: 10.0.1.2:33317 [06/Feb/2009:12:14:14.655] http-in static/srv1 10/0/30";
    assert!(matches!(slice_error_of(line.as_bytes()), SliceError::ExpectedToken(b'/')));
}

#[test]
fn parse_missing_opening_quote() {
    let line = sample_line().replace(" \"GET", " GET");
    assert!(matches!(slice_error_of(line.as_bytes()), SliceError::UnexpectedTokens));
}

#[test]
fn parse_capture_block_not_closed() {
    let line = ["haproxy[14389]: 10.0.1.2:33317 [06/Feb/2009:12:14:14.655] ",
                "http-in static/srv1 10/0/30/69/109 200 2750 cookie_in cookie_out ---- ",
                "1/1/1/1/0 0/0 {1wt.eu \"GET /index.html HTTP/1.1\""].concat();
    assert!(matches!(slice_error_of(line.as_bytes()), SliceError::ExpectedToken(b'}')));
}

#[test]
fn parse_capture_block_without_space_behind() {
    let line = sample_line().replace("{} \"", "{}\"");
    assert!(matches!(slice_error_of(line.as_bytes()), SliceError::UnexpectedTokens));
}

#[test]
fn parse_third_capture_block_is_rejected() {
    let line = sample_line().replace("{} \"", "{} {x} \"");
    assert!(matches!(slice_error_of(line.as_bytes()), SliceError::UnexpectedTokens));
}

#[test]
fn parse_two_capture_blocks() {
    let line = sample_line().replace("{} \"", "{a|b} \"");
    let entry = LogEntry::from_bytes(line.as_bytes()).unwrap();
    assert_eq!(entry.captures[0], b"1wt.eu");
    assert_eq!(entry.captures[1], b"a|b");
    assert_eq!(entry.captured_header(1, 0).unwrap(), b"a");
    assert_eq!(entry.captured_header(1, 1).unwrap(), b"b");
    assert!(entry.captured_header(1, 2).is_none());
}

#[test]
fn parse_request_line_stops_at_the_closing_quote() {
    let line = [sample_line(), " trailing\n".to_string()].concat();
    let entry = LogEntry::from_bytes(line.as_bytes()).unwrap();
    assert_eq!(entry.http_request, b"GET /index.html HTTP/1.1");
}

#[test]
fn parse_cut_request_line_keeps_the_line_feed() {
    let line = sample_line().replace("HTTP/1.1\"", "HT\n");
    let entry = LogEntry::from_bytes(line.as_bytes()).unwrap();
    assert_eq!(entry.http_request, b"GET /index.html HT\n");
}

#[test]
fn parse_fields_may_be_empty() {
    let line = "[]: : [] / ///// /////  / \"";
    let entry = LogEntry::from_bytes(line.as_bytes());
    assert!(entry.is_err());
    let line = "[]: : []   /  ////      //// / \"";
    let entry = LogEntry::from_bytes(line.as_bytes()).unwrap();
    assert_eq!(entry.process_name, b"");
    assert_eq!(entry.backend_queue, b"");
    assert_eq!(entry.http_request, b"");
    assert_eq!(entry.http_method().unwrap(), b"");
    assert!(entry.http_uri().is_none());
}

#[test]
fn parse_twice_gives_the_same_entry() {
    let line = sample_line();
    let once = LogEntry::from_bytes(line.as_bytes()).unwrap();
    let again = LogEntry::from_bytes(line.as_bytes()).unwrap();
    assert_eq!(once.process_name, again.process_name);
    assert_eq!(once.total_time, again.total_time);
    assert_eq!(once.captures, again.captures);
    assert_eq!(once.http_request, again.http_request);
}

#[test]
fn entry_fields_are_slices_of_the_line() {
    let line = sample_line();
    let bytes = line.as_bytes();
    let entry = LogEntry::from_bytes(bytes).unwrap();
    assert_eq!(entry.process_name.as_ptr(), bytes.as_ptr());
    assert_eq!(entry.pid.as_ptr(), bytes[8..].as_ptr());
}

#[test]
fn absent_request_parts_and_headers() {
    let line = sample_line().replace("GET /index.html HTTP/1.1", "GET");
    let entry = LogEntry::from_bytes(line.as_bytes()).unwrap();
    assert_eq!(entry.http_method().unwrap(), b"GET");
    assert!(entry.http_uri().is_none());
    assert!(entry.http_version().is_none());
    assert_eq!(entry.captured_header(0, 0).unwrap(), b"1wt.eu");
    assert!(entry.captured_header(0, 1).is_none());
    assert_eq!(entry.captured_header(1, 0).unwrap(), b"");
    assert!(entry.captured_header(1, 1).is_none());
}

#[test]
fn request_line_with_two_spaces_has_an_empty_word() {
    let line = sample_line().replace("GET /index.html", "GET  /index.html");
    let entry = LogEntry::from_bytes(line.as_bytes()).unwrap();
    assert_eq!(entry.http_method().unwrap(), b"GET");
    assert_eq!(entry.http_uri().unwrap(), b"");
    assert_eq!(entry.http_version().unwrap(), b"/index.html");
}

#[test]
fn process_name_as_text() {
    let line = sample_line();
    let entry = LogEntry::from_bytes(line.as_bytes()).unwrap();
    assert_eq!(entry.process_name().unwrap(), "haproxy");
}

#[test]
fn process_name_that_is_not_utf8() {
    let mut line = sample_line().into_bytes();
    line[0] = 0xff;
    let entry = LogEntry::from_bytes(&line).unwrap();
    assert!(matches!(entry.process_name(), Err(Error::Utf8Error(_))));
}

#[test]
fn pid_as_number() {
    let line = sample_line();
    let entry = LogEntry::from_bytes(line.as_bytes()).unwrap();
    assert_eq!(entry.pid().unwrap(), 14389);
}

#[test]
fn pid_with_plus_sign_and_leading_zeros() {
    let line = sample_line().replace("[14389]", "[+007]");
    let entry = LogEntry::from_bytes(line.as_bytes()).unwrap();
    assert_eq!(entry.pid().unwrap(), 7);
}

#[test]
fn pid_at_the_limit_of_u64() {
    let line = sample_line().replace("[14389]", "[18446744073709551615]");
    let entry = LogEntry::from_bytes(line.as_bytes()).unwrap();
    assert_eq!(entry.pid().unwrap(), u64::MAX);
    let line = sample_line().replace("[14389]", "[18446744073709551616]");
    let entry = LogEntry::from_bytes(line.as_bytes()).unwrap();
    assert!(matches!(entry.pid(), Err(Error::IntError(_))));
}

#[test]
fn pid_that_is_no_number() {
    for bad in ["", "+", "-1", "12a", " 12", "1_000"] {
        let line = sample_line().replace("[14389]", &format!("[{}]", bad));
        let entry = LogEntry::from_bytes(line.as_bytes()).unwrap();
        assert!(matches!(entry.pid(), Err(Error::IntError(_))), "{:?}", bad);
    }
}

#[test]
fn pid_that_is_not_utf8() {
    let mut line = sample_line().into_bytes();
    line[8] = 0xff;
    let entry = LogEntry::from_bytes(&line).unwrap();
    assert!(matches!(entry.pid(), Err(Error::Utf8Error(_))));
}

#[test]
fn error_messages() {
    let e = Error::SliceError(SliceError::ExpectedToken(b'['));
    assert_eq!(e.message(), "could not parse log entry: expected '91'");
    let e = Error::SliceError(SliceError::UnexpectedTokens);
    assert_eq!(e.message(), "could not parse log entry: unexpected tokens");
    let utf8 = std::str::from_utf8(&[0xff]).unwrap_err();
    assert_eq!(Error::Utf8Error(utf8).message(), format!("invalid utf8: {}", utf8));
    let int = "x".parse::<u64>().unwrap_err();
    assert_eq!(Error::IntError(int.clone()).message(), format!("could not decode integer: {}", int));
}

#[test]
fn errors_convert_into_the_entry_error() {
    assert!(matches!(Error::from(SliceError::UnexpectedTokens), Error::SliceError(SliceError::UnexpectedTokens)));
    let utf8 = std::str::from_utf8(&[0xff]).unwrap_err();
    assert!(matches!(Error::from(utf8), Error::Utf8Error(_)));
    let int = "x".parse::<u64>().unwrap_err();
    assert!(matches!(Error::from(int), Error::IntError(_)));
}
