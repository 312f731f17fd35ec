use naia_core::request_buffer::{BufferStep, LinePoll, RequestBuffer};
use naia_core::response::{
    response_header_to_vec, write_bad_response, write_response_header, write_session_response,
    ResponseHead,
};
use naia_core::session::{
    parse_content_length, request_line_for, starts_with_content_length, RequestScanner, ScanStep,
};

fn feed(scanner: &mut RequestScanner, bytes: &[u8]) -> (ScanStep, usize) {
    for (i, byte) in bytes.iter().enumerate() {
        let step = scanner.push_byte(*byte);
        if step != ScanStep::Continue {
            return (step, i + 1);
        }
    }
    (ScanStep::Continue, bytes.len())
}

fn field(name: &str, value: &str) -> (Vec<u8>, Vec<u8>) {
    (name.as_bytes().to_vec(), value.as_bytes().to_vec())
}

#[test]
fn request_line_is_post_and_path() {
    assert_eq!(request_line_for(b"rtc_session"), b"POST /rtc_session".to_vec());
    assert_eq!(request_line_for(b""), b"POST /".to_vec());
}

#[test]
fn session_request_is_complete_when_the_body_is() {
    let mut scanner = RequestScanner::new(b"rtc_session");
    let request = b"POST /rtc_session HTTP/1.1\r\nHost: game\r\nContent-Length: 5\r\n\r\nv=0\r\nEXTRA";
    let (step, used) = feed(&mut scanner, request);
    assert_eq!(step, ScanStep::Complete);
    assert_eq!(used, request.len() - 5);
    assert_eq!(scanner.body(), &b"v=0\r\n".to_vec());
    assert_eq!(scanner.content_length(), Some(5));
    assert!(scanner.headers_been_read());
    assert!(scanner.rtc_url_matched());
}

#[test]
fn content_length_is_found_in_any_letter_case() {
    let mut scanner = RequestScanner::new(b"x");
    let request = b"POST /x HTTP/1.1\ncOnTeNt-LeNgTh: 2\n\nab";
    assert_eq!(feed(&mut scanner, request).0, ScanStep::Complete);
    assert_eq!(scanner.body(), &b"ab".to_vec());
}

#[test]
fn request_without_content_length_stops_after_the_headers() {
    let mut scanner = RequestScanner::new(b"rtc_session");
    let request = b"POST /rtc_session HTTP/1.1\r\nHost: game\r\n\r\nbody";
    let (step, used) = feed(&mut scanner, request);
    assert_eq!(step, ScanStep::MissingContentLength);
    assert_eq!(used, request.len() - 3);
    assert_eq!(scanner.body().len(), 0);
}

#[test]
fn request_for_another_path_never_completes() {
    let mut scanner = RequestScanner::new(b"rtc_session");
    let request = b"POST /other HTTP/1.1\r\nContent-Length: 1\r\n\r\nx";
    assert_eq!(feed(&mut scanner, request).0, ScanStep::Continue);
    assert!(!scanner.rtc_url_matched());
    assert!(!scanner.headers_been_read());
    assert_eq!(scanner.content_length(), None);
}

#[test]
fn get_request_never_completes() {
    let mut scanner = RequestScanner::new(b"rtc_session");
    let request = b"GET /rtc_session HTTP/1.1\r\nContent-Length: 1\r\n\r\nx";
    assert_eq!(feed(&mut scanner, request).0, ScanStep::Continue);
    assert!(!scanner.rtc_url_matched());
}

#[test]
fn unreadable_content_length_counts_as_missing() {
    let mut scanner = RequestScanner::new(b"p");
    let request = b"POST /p\nContent-Length: 12x\n\nabc";
    assert_eq!(feed(&mut scanner, request).0, ScanStep::MissingContentLength);
}

#[test]
fn later_content_length_replaces_the_earlier() {
    let mut scanner = RequestScanner::new(b"p");
    let request = b"POST /p\nContent-Length: 9\nContent-Length: 3\n\nabc";
    assert_eq!(feed(&mut scanner, request).0, ScanStep::Complete);
    assert_eq!(scanner.body(), &b"abc".to_vec());
}

#[test]
fn content_length_zero_completes_on_the_first_body_byte() {
    let mut scanner = RequestScanner::new(b"p");
    let request = b"POST /p\nContent-Length: 0\n\n";
    assert_eq!(feed(&mut scanner, request).0, ScanStep::Continue);
    assert_eq!(scanner.push_byte(b'x'), ScanStep::Complete);
    assert_eq!(scanner.body(), &b"x".to_vec());
}

#[test]
fn line_that_is_not_utf8_cannot_be_read() {
    let mut scanner = RequestScanner::new(b"p");
    let (step, used) = feed(&mut scanner, b"POST /p\nHost: \xff\xfe\nContent-Length: 1\n\nx");
    assert_eq!(step, ScanStep::InvalidLine);
    assert_eq!(used, 17);
    let mut scanner = RequestScanner::new(b"p");
    assert_eq!(feed(&mut scanner, "POST /p\nHost: \u{e9}\n".as_bytes()).0, ScanStep::Continue);
}

#[test]
fn content_length_prefix_needs_the_space() {
    assert!(starts_with_content_length(b"Content-Length: 5"));
    assert!(starts_with_content_length(b"CONTENT-LENGTH: "));
    assert!(!starts_with_content_length(b"Content-Length:5"));
    assert!(!starts_with_content_length(b"Content-Length"));
    assert!(!starts_with_content_length(b"X-Content-Length: 5"));
}

#[test]
fn sizes_are_digits_with_an_optional_plus() {
    assert_eq!(parse_content_length(b"0"), Some(0));
    assert_eq!(parse_content_length(b"1234"), Some(1234));
    assert_eq!(parse_content_length(b"+17"), Some(17));
    assert_eq!(parse_content_length(b"007"), Some(7));
    assert_eq!(parse_content_length(b""), None);
    assert_eq!(parse_content_length(b"+"), None);
    assert_eq!(parse_content_length(b"-1"), None);
    assert_eq!(parse_content_length(b" 1"), None);
    assert_eq!(parse_content_length(b"1 "), None);
    assert_eq!(parse_content_length(b"12a"), None);
    assert_eq!(parse_content_length(b"++1"), None);
}

#[test]
fn size_that_does_not_fit_is_none() {
    let max = format!("{}", usize::MAX);
    assert_eq!(parse_content_length(max.as_bytes()), Some(usize::MAX));
    let too_big = format!("{}0", usize::MAX);
    assert_eq!(parse_content_length(too_big.as_bytes()), None);
    assert_eq!(parse_content_length(b"99999999999999999999999999999999"), None);
}

#[test]
fn response_header_has_status_line_fields_and_empty_line() {
    let head = ResponseHead::new(
        200,
        vec![field("content-type", "application/json"), field("content-length", "2")],
    )
    .unwrap();
    assert_eq!(
        response_header_to_vec(&head),
        b"HTTP/1.1 200 OK\r\ncontent-type: application/json\r\ncontent-length: 2\r\n\r\n".to_vec()
    );
}

#[test]
fn reason_phrase_is_the_standard_one() {
    let head = ResponseHead::new(404, Vec::new()).unwrap();
    assert_eq!(response_header_to_vec(&head), b"HTTP/1.1 404 Not Found\r\n\r\n".to_vec());
    let head = ResponseHead::new(500, Vec::new()).unwrap();
    assert_eq!(
        response_header_to_vec(&head),
        b"HTTP/1.1 500 Internal Server Error\r\n\r\n".to_vec()
    );
}

#[test]
fn status_without_a_standard_phrase_is_unknown() {
    let head = ResponseHead::new(599, Vec::new()).unwrap();
    assert_eq!(response_header_to_vec(&head), b"HTTP/1.1 599 Unknown\r\n\r\n".to_vec());
    let head = ResponseHead::new(999, Vec::new()).unwrap();
    assert_eq!(response_header_to_vec(&head), b"HTTP/1.1 999 Unknown\r\n\r\n".to_vec());
}

#[test]
fn status_has_three_digits() {
    assert!(ResponseHead::new(99, Vec::new()).is_none());
    assert!(ResponseHead::new(1000, Vec::new()).is_none());
    assert!(ResponseHead::new(100, Vec::new()).is_some());
    let head = ResponseHead::new(100, Vec::new()).unwrap();
    assert_eq!(response_header_to_vec(&head), b"HTTP/1.1 100 Continue\r\n\r\n".to_vec());
}

#[test]
fn written_length_is_the_length_of_the_header() {
    let head = ResponseHead::new(200, vec![field("a", "b")]).unwrap();
    let mut out = b"before".to_vec();
    let written = write_response_header(&head, &mut out);
    assert_eq!(out, b"beforeHTTP/1.1 200 OK\r\na: b\r\n\r\n".to_vec());
    assert_eq!(written, out.len() - 6);
}

#[test]
fn session_response_allows_every_origin() {
    let head = ResponseHead::new(200, vec![field("content-type", "application/json")]).unwrap();
    assert_eq!(
        write_session_response(head, b"{}"),
        b"HTTP/1.1 200 OK\r\ncontent-type: application/json\r\naccess-control-allow-origin: *\r\n\r\n{}"
            .to_vec()
    );
}

#[test]
fn allow_origin_replaces_the_field_where_it_stands() {
    let head = ResponseHead::new(
        200,
        vec![
            field("a", "1"),
            field("access-control-allow-origin", "https://example.com"),
            field("b", "2"),
            field("access-control-allow-origin", "null"),
        ],
    )
    .unwrap();
    assert_eq!(
        write_session_response(head, b""),
        b"HTTP/1.1 200 OK\r\na: 1\r\naccess-control-allow-origin: *\r\nb: 2\r\n\r\n".to_vec()
    );
}

#[test]
fn insert_header_adds_a_new_field_at_the_end() {
    let mut head = ResponseHead::new(204, vec![field("a", "1")]).unwrap();
    head.insert_header(b"b", b"2");
    head.insert_header(b"a", b"3");
    assert_eq!(
        response_header_to_vec(&head),
        b"HTTP/1.1 204 No Content\r\na: 3\r\nb: 2\r\n\r\n".to_vec()
    );
}

#[test]
fn bad_response_is_404_not_found() {
    assert_eq!(
        write_bad_response(),
        b"\nHTTP/1.1 404 NOT FOUND\nContent-Type: text/html\nContent-Length: 0\nAccess-Control-Allow-Origin: *\n"
            .to_vec()
    );
}

#[test]
fn newline_follows_every_line() {
    let mut buffer = RequestBuffer::new();
    assert_eq!(buffer.begin_poll(), BufferStep::PollLines);
    assert_eq!(buffer.poll_next(LinePoll::Line("v=0")), Some("v=0"));
    assert_eq!(buffer.begin_poll(), BufferStep::Newline);
    assert_eq!(buffer.begin_poll(), BufferStep::PollLines);
    assert_eq!(buffer.poll_next(LinePoll::Line("o=-")), Some("o=-"));
    assert_eq!(buffer.begin_poll(), BufferStep::Newline);
    assert_eq!(buffer.begin_poll(), BufferStep::PollLines);
    assert_eq!(buffer.poll_next(LinePoll::<&str>::Finished), None);
    assert_eq!(buffer.begin_poll(), BufferStep::PollLines);
}

#[test]
fn pending_line_ends_the_stream() {
    let mut buffer = RequestBuffer::new();
    assert_eq!(buffer.begin_poll(), BufferStep::PollLines);
    assert_eq!(buffer.poll_next(LinePoll::<String>::Pending), None);
    assert_eq!(buffer.begin_poll(), BufferStep::PollLines);
}
