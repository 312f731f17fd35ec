//! The HTTP front-end through which a client opens a session.
//!
//! A client posts a session offer to the configured path. The request is
//! scanned byte by byte as it arrives: the request line is matched against
//! the configured path, the `Content-Length` header gives the size of the
//! body, and the body is collected until it is complete. The caller owns
//! the connection; this module decides what each byte means and builds the
//! bytes of the reply.

use vstd::prelude::*;
use vstd::string::StringSliceAdditionalSpecFns;

verus! {

/// What the scanner has seen of a request so far.
pub struct ScanState {
    /// The bytes of the line that is being read.
    pub line: Seq<u8>,
    /// The bytes of the body collected so far.
    pub body: Seq<u8>,
    /// Whether the empty line that ends the headers was seen.
    pub headers_been_read: bool,
    /// The body size announced by the last `Content-Length` header.
    pub content_length: Option<usize>,
    /// Whether the request line named the session path.
    pub rtc_url_matched: bool,
}

/// What the caller does after handing a byte to the scanner.
#[derive(Clone, Copy, PartialEq, Eq, Debug, Structural)]
pub enum ScanStep {
    /// The request is not finished: read the next byte.
    Continue,
    /// The body is complete: the request can be answered.
    Complete,
    /// The headers ended without a usable `Content-Length`: stop reading.
    MissingContentLength,
    /// A line ended that is not valid UTF-8: the request cannot be read.
    InvalidLine,
}

/// The lower-case form of an ASCII letter, and any other byte unchanged.
pub open spec fn ascii_lowercase(byte: u8) -> u8 {
    if 'A' as u8 <= byte <= 'Z' as u8 {
        (byte + 32) as u8
    } else {
        byte
    }
}

/// The bytes of `content-length: `.
pub open spec fn content_length_prefix() -> Seq<u8> {
    seq![
        'c' as u8, 'o' as u8, 'n' as u8, 't' as u8, 'e' as u8, 'n' as u8, 't' as u8, '-' as u8,
        'l' as u8, 'e' as u8, 'n' as u8, 'g' as u8, 't' as u8, 'h' as u8, ':' as u8, ' ' as u8,
    ]
}

/// Whether a header line begins with `content-length: `, in any letter case.
pub open spec fn is_content_length_line(line: Seq<u8>) -> bool {
    &&& line.len() >= 16
    &&& forall|i: int| 0 <= i < 16 ==> ascii_lowercase(#[trigger] line[i]) == content_length_prefix()[i]
}

/// Whether a byte is an ASCII decimal digit.
pub open spec fn is_digit(byte: u8) -> bool {
    '0' as u8 <= byte <= '9' as u8
}

/// The number that a string of decimal digits denotes; a byte that is no
/// digit counts as zero.
pub open spec fn decimal_value(digits: Seq<u8>) -> nat
    decreases digits.len(),
{
    if digits.len() == 0 {
        0
    } else {
        let last = digits.last();
        let unit: nat = if is_digit(last) {
            (last - '0' as u8) as nat
        } else {
            0
        };
        decimal_value(digits.drop_last()) * 10 + unit
    }
}

/// Whether every byte is a decimal digit.
pub open spec fn all_digits(digits: Seq<u8>) -> bool {
    forall|i: int| 0 <= i < digits.len() ==> is_digit(#[trigger] digits[i])
}

/// The digits of a number text, without the `+` that may precede them.
pub open spec fn unsigned_digits(text: Seq<u8>) -> Seq<u8> {
    if text.len() > 0 && text[0] == '+' as u8 {
        text.skip(1)
    } else {
        text
    }
}

/// The size that a text denotes: an optional `+`, then one or more decimal
/// digits and nothing else, with a value that fits in `usize`.
pub open spec fn parse_size(text: Seq<u8>) -> Option<usize> {
    let digits = unsigned_digits(text);
    if digits.len() > 0 && all_digits(digits) && decimal_value(digits) <= usize::MAX {
        Some(decimal_value(digits) as usize)
    } else {
        None
    }
}

/// The state after a complete, well-formed line.
///
/// Before the request line has matched, only a line that begins with
/// `request_line` counts. After that a `Content-Length` line sets the body
/// size, replacing an earlier one, and an empty line ends the headers.
/// Every other line is skipped.
pub open spec fn end_line(request_line: Seq<u8>, s: ScanState) -> ScanState {
    let cleared = ScanState { line: Seq::empty(), ..s };
    if s.rtc_url_matched {
        if is_content_length_line(s.line) {
            ScanState { content_length: parse_size(s.line.skip(16)), ..cleared }
        } else if s.line.len() == 0 {
            ScanState { headers_been_read: true, ..cleared }
        } else {
            cleared
        }
    } else if request_line.is_prefix_of(s.line) {
        ScanState { rtc_url_matched: true, ..cleared }
    } else {
        cleared
    }
}

/// What a byte does to the line that is being read: a carriage return is
/// dropped, a line feed ends the line, any other byte joins it.
pub open spec fn scan_line_byte(request_line: Seq<u8>, s: ScanState, byte: u8) -> (ScanState, ScanStep) {
    if byte == '\r' as u8 {
        (s, ScanStep::Continue)
    } else if byte == '\n' as u8 {
        if vstd::utf8::valid_utf8(s.line) {
            (end_line(request_line, s), ScanStep::Continue)
        } else {
            (s, ScanStep::InvalidLine)
        }
    } else {
        (ScanState { line: s.line.push(byte), ..s }, ScanStep::Continue)
    }
}

/// What one byte of the request does to the scan.
///
/// Once the headers have ended, each byte joins the body, and the request
/// is complete when the body has reached the announced size; without an
/// announced size the scan stops. A byte that does not complete the body
/// is read as part of a line as well.
pub open spec fn scan_step(request_line: Seq<u8>, s: ScanState, byte: u8) -> (ScanState, ScanStep) {
    if s.headers_been_read {
        match s.content_length {
            Some(size) => {
                let t = ScanState { body: s.body.push(byte), ..s };
                if t.body.len() >= size {
                    (t, ScanStep::Complete)
                } else {
                    scan_line_byte(request_line, t, byte)
                }
            },
            None => (s, ScanStep::MissingContentLength),
        }
    } else {
        scan_line_byte(request_line, s, byte)
    }
}

/// The state in which a scan begins.
pub open spec fn initial_scan() -> ScanState {
    ScanState {
        line: Seq::empty(),
        body: Seq::empty(),
        headers_been_read: false,
        content_length: None,
        rtc_url_matched: false,
    }
}

/// The request line that opens a session request for `path`: `POST /`
/// followed by the path.
pub open spec fn session_request_line(path: Seq<u8>) -> Seq<u8> {
    "POST /".spec_bytes() + path
}

/// Tells whether `bytes` is well-formed UTF-8, as `std::str::from_utf8`
/// decides it: that function fails exactly on input that is not UTF-8.
#[verifier::external_body]
fn is_utf8(bytes: &Vec<u8>) -> (ok: bool)
    ensures
        ok == vstd::utf8::valid_utf8(bytes@),
{
    std::str::from_utf8(bytes.as_slice()).is_ok()
}

/// The lower-case form of an ASCII letter, and any other byte unchanged.
pub fn to_ascii_lowercase(byte: u8) -> (lower: u8)
    ensures
        lower == ascii_lowercase(byte),
{
    if 'A' as u8 <= byte && byte <= 'Z' as u8 {
        byte + 32
    } else {
        byte
    }
}

/// The request line that opens a session request for `path`.
pub fn request_line_for(path: &[u8]) -> (line: Vec<u8>)
    ensures
        line@ == session_request_line(path@),
{
    let mut line = crate::bytes::copy_bytes("POST /".as_bytes());
    crate::bytes::append_bytes(&mut line, path);
    line
}

/// Whether a header line begins with `content-length: `, in any letter case.
pub fn starts_with_content_length(line: &[u8]) -> (found: bool)
    ensures
        found == is_content_length_line(line@),
{
    if line.len() < 16 {
        return false;
    }
    let prefix: Vec<u8> = vec![
        'c' as u8, 'o' as u8, 'n' as u8, 't' as u8, 'e' as u8, 'n' as u8, 't' as u8, '-' as u8,
        'l' as u8, 'e' as u8, 'n' as u8, 'g' as u8, 't' as u8, 'h' as u8, ':' as u8, ' ' as u8,
    ];
    assert(prefix@ =~= content_length_prefix());
    let mut i: usize = 0;
    while i < 16
        invariant
            i <= 16,
            line.len() >= 16,
            prefix@ == content_length_prefix(),
            forall|j: int| 0 <= j < i ==> ascii_lowercase(#[trigger] line@[j]) == content_length_prefix()[j],
        decreases 16 - i,
    {
        if to_ascii_lowercase(line[i]) != prefix[i] {
            return false;
        }
        i += 1;
    }
    true
}

/// A longer string of digits denotes no smaller a number than its beginning.
pub proof fn lemma_decimal_value_grows(digits: Seq<u8>, n: int)
    requires
        0 <= n <= digits.len(),
    ensures
        decimal_value(digits.take(n)) <= decimal_value(digits),
    decreases digits.len(),
{
    if n == digits.len() {
        assert(digits.take(n) =~= digits);
    } else {
        assert(digits.drop_last().take(n) =~= digits.take(n));
        lemma_decimal_value_grows(digits.drop_last(), n);
    }
}

/// Reads a size: an optional `+`, then decimal digits only. Gives `None`
/// for anything else, and for a number that does not fit in `usize`.
pub fn parse_content_length(text: &[u8]) -> (size: Option<usize>)
    ensures
        size == parse_size(text@),
{
    let start: usize = if text.len() > 0 && text[0] == '+' as u8 {
        1
    } else {
        0
    };
    let ghost digits = unsigned_digits(text@);
    assert(digits == text@.skip(start as int));
    if start == text.len() {
        return None;
    }
    let mut value: usize = 0;
    let mut i: usize = start;
    while i < text.len()
        invariant
            start <= i <= text.len(),
            digits == unsigned_digits(text@),
            digits == text@.skip(start as int),
            all_digits(digits.take(i - start)),
            value == decimal_value(digits.take(i - start)),
        decreases text.len() - i,
    {
        let byte = text[i];
        let ghost next = digits.take(i - start + 1);
        assert(next.drop_last() =~= digits.take(i - start));
        assert(next.last() == byte);
        if !('0' as u8 <= byte && byte <= '9' as u8) {
            assert(!is_digit(digits[i - start]));
            return None;
        }
        let unit: usize = (byte - '0' as u8) as usize;
        let scaled = match value.checked_mul(10) {
            Some(scaled) => scaled,
            None => {
                proof {
                    lemma_decimal_value_grows(digits, i - start + 1);
                }
                return None;
            },
        };
        value = match scaled.checked_add(unit) {
            Some(sum) => sum,
            None => {
                proof {
                    lemma_decimal_value_grows(digits, i - start + 1);
                }
                return None;
            },
        };
        i += 1;
    }
    assert(digits.take(i - start) =~= digits);
    Some(value)
}

/// Scans the bytes of one session request as they arrive.
pub struct RequestScanner {
    request_line: Vec<u8>,
    line: Vec<u8>,
    body: Vec<u8>,
    headers_been_read: bool,
    content_length: Option<usize>,
    rtc_url_matched: bool,
}

impl View for RequestScanner {
    type V = ScanState;

    closed spec fn view(&self) -> ScanState {
        ScanState {
            line: self.line@,
            body: self.body@,
            headers_been_read: self.headers_been_read,
            content_length: self.content_length,
            rtc_url_matched: self.rtc_url_matched,
        }
    }
}

impl RequestScanner {
    /// The request line that this scanner waits for.
    pub closed spec fn request_line(&self) -> Seq<u8> {
        self.request_line@
    }

    /// A scanner for requests posted to `path`, with nothing read yet.
    pub fn new(path: &[u8]) -> (scanner: Self)
        ensures
            scanner@ == initial_scan(),
            scanner.request_line() == session_request_line(path@),
    {
        RequestScanner {
            request_line: request_line_for(path),
            line: Vec::new(),
            body: Vec::new(),
            headers_been_read: false,
            content_length: None,
            rtc_url_matched: false,
        }
    }

    /// Takes the next byte of the request and says how to go on.
    pub fn push_byte(&mut self, byte: u8) -> (step: ScanStep)
        ensures
            (final(self)@, step) == scan_step(old(self).request_line(), old(self)@, byte),
            final(self).request_line() == old(self).request_line(),
    {
        if self.headers_been_read {
            match self.content_length {
                Some(size) => {
                    self.body.push(byte);
                    if self.body.len() >= size {
                        return ScanStep::Complete;
                    }
                },
                None => {
                    return ScanStep::MissingContentLength;
                },
            }
        }
        if byte == '\r' as u8 {
            ScanStep::Continue
        } else if byte == '\n' as u8 {
            if !is_utf8(&self.line) {
                return ScanStep::InvalidLine;
            }
            if self.rtc_url_matched {
                if starts_with_content_length(self.line.as_slice()) {
                    let rest = vstd::slice::slice_subrange(self.line.as_slice(), 16, self.line.len());
                    assert(rest@ =~= self.line@.skip(16));
                    self.content_length = parse_content_length(rest);
                } else if self.line.len() == 0 {
                    self.headers_been_read = true;
                }
            } else if crate::bytes::has_prefix(self.line.as_slice(), self.request_line.as_slice()) {
                self.rtc_url_matched = true;
            }
            self.line.clear();
            ScanStep::Continue
        } else {
            self.line.push(byte);
            ScanStep::Continue
        }
    }

    /// The body collected so far.
    pub fn body(&self) -> (body: &Vec<u8>)
        ensures
            body@ == self@.body,
    {
        &self.body
    }

    /// The body size that the request announced, if it has.
    pub fn content_length(&self) -> (size: Option<usize>)
        ensures
            size == self@.content_length,
    {
        self.content_length
    }

    /// Whether the headers have ended.
    pub fn headers_been_read(&self) -> (ended: bool)
        ensures
            ended == self@.headers_been_read,
    {
        self.headers_been_read
    }

    /// Whether the request line named the session path.
    pub fn rtc_url_matched(&self) -> (matched: bool)
        ensures
            matched == self@.rtc_url_matched,
    {
        self.rtc_url_matched
    }
}

/// Whether the headers have ended only after the request line named the
/// session path.
pub open spec fn headers_follow_request_line(s: ScanState) -> bool {
    s.headers_been_read ==> s.rtc_url_matched
}

/// Only a request for the session path is ever complete: the scan begins
/// with no headers read, every byte keeps the headers behind the request
/// line, and a scan that is complete has seen the request line and a
/// size for the body, which the body has reached.
pub proof fn lemma_only_session_requests_complete(request_line: Seq<u8>, s: ScanState, byte: u8)
    requires
        headers_follow_request_line(s),
    ensures
        headers_follow_request_line(initial_scan()),
        headers_follow_request_line(scan_step(request_line, s, byte).0),
        scan_step(request_line, s, byte).1 == ScanStep::Complete ==> {
            let after = scan_step(request_line, s, byte).0;
            &&& after.rtc_url_matched
            &&& after.headers_been_read
            &&& after.content_length matches Some(size) && after.body.len() >= size
        },
{
}

} // verus!
