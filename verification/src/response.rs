//! The bytes of the replies that the session front-end sends.
//!
//! A session request that succeeded is answered with the status line and
//! the headers of the answer, followed by its body; every other request is
//! answered with a fixed `404 NOT FOUND`.

use vstd::prelude::*;
use vstd::string::StringSliceAdditionalSpecFns;

verus! {

/// The header fields of a reply: names with their values, in order.
pub type HeaderList = Seq<(Seq<u8>, Seq<u8>)>;

/// The status and the header fields of a reply.
pub struct ResponseHead {
    status: u16,
    headers: Vec<(Vec<u8>, Vec<u8>)>,
}

/// The reason phrase that the `http` crate's `StatusCode::canonical_reason`
/// gives for a status code, if it has one.
pub uninterp spec fn canonical_reason(status: u16) -> Option<Seq<u8>>;

/// Looks up the standard reason phrase of a status code with the `http`
/// crate's `StatusCode::canonical_reason`. A code from 100 to 999 is a valid
/// `StatusCode`; the result is the phrase that the crate's table holds for
/// it, or `None` where the table has none.
#[verifier::external_body]
fn reason_phrase(status: u16) -> (reason: Option<Vec<u8>>)
    requires
        100 <= status < 1000,
    ensures
        reason matches Some(phrase) ==> canonical_reason(status) == Some(phrase@),
        reason is None ==> canonical_reason(status) is None,
{
    match http::StatusCode::from_u16(status) {
        Ok(code) => code.canonical_reason().map(|phrase| phrase.as_bytes().to_vec()),
        Err(_) => None,
    }
}

/// The field list that a vector of header fields stands for.
pub open spec fn header_list(headers: Seq<(Vec<u8>, Vec<u8>)>) -> HeaderList {
    headers.map_values(|h: (Vec<u8>, Vec<u8>)| (h.0@, h.1@))
}

/// The three decimal digits of a status code.
pub open spec fn status_digits(status: u16) -> Seq<u8> {
    seq![
        ('0' as u8 + status / 100) as u8,
        ('0' as u8 + (status / 10) % 10) as u8,
        ('0' as u8 + status % 10) as u8,
    ]
}

/// The bytes of `Unknown`, the phrase for a status without a standard one.
pub open spec fn unknown_reason() -> Seq<u8> {
    "Unknown".spec_bytes()
}

/// The reason phrase written for a status.
pub open spec fn reason_of(status: u16) -> Seq<u8> {
    match canonical_reason(status) {
        Some(phrase) => phrase,
        None => unknown_reason(),
    }
}

/// The bytes of `HTTP/1.1 `.
pub open spec fn http_version() -> Seq<u8> {
    "HTTP/1.1 ".spec_bytes()
}

/// The bytes that end a line.
pub open spec fn line_end() -> Seq<u8> {
    "\r\n".spec_bytes()
}

/// The status line of a reply, with its line end.
pub open spec fn status_line(status: u16) -> Seq<u8> {
    http_version() + status_digits(status) + " ".spec_bytes() + reason_of(status) + line_end()
}

/// One header field as a line: the name, `: `, the value and a line end.
pub open spec fn header_line(field: (Seq<u8>, Seq<u8>)) -> Seq<u8> {
    field.0 + ": ".spec_bytes() + field.1 + line_end()
}

/// The lines of all header fields, in order.
pub open spec fn header_lines(headers: HeaderList) -> Seq<u8>
    decreases headers.len(),
{
    if headers.len() == 0 {
        Seq::empty()
    } else {
        header_lines(headers.drop_last()) + header_line(headers.last())
    }
}

/// The head of a reply: the status line, the header lines and an empty line.
pub open spec fn response_header(status: u16, headers: HeaderList) -> Seq<u8> {
    status_line(status) + header_lines(headers) + line_end()
}

/// The field list after `name` was set to `value`.
///
/// The first field of that name takes the new value where it stands and
/// every later field of that name is removed; where there is none, the new
/// field is added at the end. `placed` says that the new value has already
/// been put down in front of `headers`.
pub open spec fn place_header(headers: HeaderList, name: Seq<u8>, value: Seq<u8>, placed: bool) -> HeaderList
    decreases headers.len(),
{
    if headers.len() == 0 {
        if placed {
            Seq::empty()
        } else {
            seq![(name, value)]
        }
    } else if headers[0].0 == name {
        if placed {
            place_header(headers.skip(1), name, value, true)
        } else {
            seq![(name, value)] + place_header(headers.skip(1), name, value, true)
        }
    } else {
        seq![headers[0]] + place_header(headers.skip(1), name, value, placed)
    }
}

/// The bytes of `access-control-allow-origin`.
pub open spec fn allow_origin_name() -> Seq<u8> {
    "access-control-allow-origin".spec_bytes()
}

/// The reply to a session request that succeeded: the head of the answer
/// with `access-control-allow-origin` set to `*`, then its body.
pub open spec fn session_response(status: u16, headers: HeaderList, body: Seq<u8>) -> Seq<u8> {
    response_header(status, place_header(headers, allow_origin_name(), "*".spec_bytes(), false)) + body
}

/// The reply to every request that did not succeed.
pub open spec fn bad_response() -> Seq<u8> {
    "\nHTTP/1.1 404 NOT FOUND\nContent-Type: text/html\nContent-Length: 0\nAccess-Control-Allow-Origin: *\n"
        .spec_bytes()
}

/// The lines of a field list with one more field are the lines of the list
/// followed by the line of that field.
pub proof fn lemma_header_lines_push(headers: HeaderList, field: (Seq<u8>, Seq<u8>))
    ensures
        header_lines(headers.push(field)) == header_lines(headers) + header_line(field),
{
    assert(headers.push(field).drop_last() =~= headers);
}

impl ResponseHead {
    /// The status code.
    pub closed spec fn status(&self) -> u16 {
        self.status
    }

    /// The header fields.
    pub closed spec fn headers(&self) -> HeaderList {
        header_list(self.headers@)
    }

    /// A status code has three digits.
    pub closed spec fn wf(&self) -> bool {
        100 <= self.status < 1000
    }

    /// A head with the given status and fields; `None` unless the status
    /// lies between 100 and 999.
    pub fn new(status: u16, headers: Vec<(Vec<u8>, Vec<u8>)>) -> (head: Option<Self>)
        ensures
            head is Some <==> 100 <= status < 1000,
            head matches Some(h) ==> h.wf() && h.status() == status && h.headers() == header_list(
                headers@,
            ),
    {
        if 100 <= status && status < 1000 {
            Some(ResponseHead { status, headers })
        } else {
            None
        }
    }

    /// Sets the field `name` to `value`: the first field of that name takes
    /// the value, later ones are removed, and where there is none the
    /// field is added at the end.
    pub fn insert_header(&mut self, name: &[u8], value: &[u8])
        requires
            old(self).wf(),
        ensures
            final(self).wf(),
            final(self).status() == old(self).status(),
            final(self).headers() == place_header(old(self).headers(), name@, value@, false),
    {
        let mut result: Vec<(Vec<u8>, Vec<u8>)> = Vec::new();
        let mut placed = false;
        let ghost all = header_list(self.headers@);
        let mut i: usize = 0;
        assert(all.skip(0) =~= all);
        assert(header_list(result@) + place_header(all, name@, value@, false) =~= place_header(
            all,
            name@,
            value@,
            false,
        ));
        while i < self.headers.len()
            invariant
                i <= self.headers.len(),
                all == header_list(self.headers@),
                header_list(result@) + place_header(all.skip(i as int), name@, value@, placed)
                    == place_header(all, name@, value@, false),
            decreases self.headers.len() - i,
        {
            let ghost before = header_list(result@);
            let ghost rest = all.skip(i as int);
            assert(rest[0] == all[i as int]);
            assert(rest.skip(1) =~= all.skip(i + 1));
            if crate::bytes::bytes_equal(self.headers[i].0.as_slice(), name) {
                if !placed {
                    result.push((crate::bytes::copy_bytes(name), crate::bytes::copy_bytes(value)));
                    placed = true;
                    assert(header_list(result@) =~= before + seq![(name@, value@)]);
                }
            } else {
                let field = (
                    crate::bytes::copy_bytes(self.headers[i].0.as_slice()),
                    crate::bytes::copy_bytes(self.headers[i].1.as_slice()),
                );
                result.push(field);
                assert(header_list(result@) =~= before + seq![rest[0]]);
            }
            i += 1;
        }
        if !placed {
            let ghost before = header_list(result@);
            result.push((crate::bytes::copy_bytes(name), crate::bytes::copy_bytes(value)));
            assert(header_list(result@) =~= before + seq![(name@, value@)]);
        }
        self.headers = result;
    }
}

/// The three decimal digits of a status code.
pub fn write_status_digits(status: u16, out: &mut Vec<u8>)
    requires
        100 <= status < 1000,
    ensures
        final(out)@ == old(out)@ + status_digits(status),
{
    let hundreds: u8 = (status / 100) as u8;
    let tens: u8 = ((status / 10) % 10) as u8;
    let units: u8 = (status % 10) as u8;
    out.push('0' as u8 + hundreds);
    out.push('0' as u8 + tens);
    out.push('0' as u8 + units);
    assert(out@ =~= old(out)@ + status_digits(status));
}

/// Writes the head of a reply to `out` and gives the number of bytes
/// written.
pub fn write_response_header(head: &ResponseHead, out: &mut Vec<u8>) -> (written: usize)
    requires
        head.wf(),
    ensures
        final(out)@ == old(out)@ + response_header(head.status(), head.headers()),
        written == response_header(head.status(), head.headers()).len(),
{
    let start = out.len();
    crate::bytes::append_bytes(out, "HTTP/1.1 ".as_bytes());
    write_status_digits(head.status, out);
    crate::bytes::append_bytes(out, " ".as_bytes());
    match reason_phrase(head.status) {
        Some(phrase) => {
            crate::bytes::append_bytes(out, phrase.as_slice());
        },
        None => {
            crate::bytes::append_bytes(out, "Unknown".as_bytes());
        },
    }
    crate::bytes::append_bytes(out, "\r\n".as_bytes());
    assert(out@ =~= old(out)@ + status_line(head.status()));
    let ghost all = head.headers();
    let mut i: usize = 0;
    assert(all.take(0) =~= Seq::empty());
    assert(out@ =~= old(out)@ + status_line(head.status()) + header_lines(all.take(0)));
    while i < head.headers.len()
        invariant
            i <= head.headers.len(),
            all == header_list(head.headers@),
            out@ == old(out)@ + status_line(head.status()) + header_lines(all.take(i as int)),
        decreases head.headers.len() - i,
    {
        let ghost before = out@;
        crate::bytes::append_bytes(out, head.headers[i].0.as_slice());
        crate::bytes::append_bytes(out, ": ".as_bytes());
        crate::bytes::append_bytes(out, head.headers[i].1.as_slice());
        crate::bytes::append_bytes(out, "\r\n".as_bytes());
        proof {
            assert(all.take(i + 1) =~= all.take(i as int).push(all[i as int]));
            lemma_header_lines_push(all.take(i as int), all[i as int]);
            assert(out@ =~= before + header_line(all[i as int]));
        }
        i += 1;
    }
    assert(all.take(i as int) =~= all);
    crate::bytes::append_bytes(out, "\r\n".as_bytes());
    assert(out@ =~= old(out)@ + response_header(head.status(), head.headers()));
    out.len() - start
}

/// The head of a reply, as bytes.
pub fn response_header_to_vec(head: &ResponseHead) -> (bytes: Vec<u8>)
    requires
        head.wf(),
    ensures
        bytes@ == response_header(head.status(), head.headers()),
{
    let mut bytes: Vec<u8> = Vec::with_capacity(120);
    write_response_header(head, &mut bytes);
    assert(bytes@ =~= response_header(head.status(), head.headers()));
    bytes
}

/// The whole reply to a session request that succeeded: the head of the
/// answer with `access-control-allow-origin: *`, then the body.
pub fn write_session_response(head: ResponseHead, body: &[u8]) -> (bytes: Vec<u8>)
    requires
        head.wf(),
    ensures
        bytes@ == session_response(head.status(), head.headers(), body@),
{
    let mut head = head;
    head.insert_header("access-control-allow-origin".as_bytes(), "*".as_bytes());
    let mut bytes = response_header_to_vec(&head);
    crate::bytes::append_bytes(&mut bytes, body);
    bytes
}

/// The whole reply to a request that did not succeed.
pub fn write_bad_response() -> (bytes: Vec<u8>)
    ensures
        bytes@ == bad_response(),
{
    crate::bytes::copy_bytes(
        "\nHTTP/1.1 404 NOT FOUND\nContent-Type: text/html\nContent-Length: 0\nAccess-Control-Allow-Origin: *\n"
            .as_bytes(),
    )
}

} // verus!
