use vstd::prelude::*;
use vstd::slice::slice_to_vec;
use vstd::utf8::encode_utf8;
use crate::fields::{fields_map as fields_map_of, FieldMap};
use crate::text::{lossy_text, text_of};

verus! {

/// The status of a response.
#[derive(PartialEq, Eq, Structural, Clone, Copy, Debug)]
pub enum Status {
    OK,
    NotFound,
    BadRequest,
    InternalServerError,
}

impl Status {
    pub open spec fn code(self) -> u16 {
        match self {
            Status::OK => 200,
            Status::NotFound => 404,
            Status::BadRequest => 400,
            Status::InternalServerError => 500,
        }
    }

    pub open spec fn reason(self) -> Seq<char> {
        match self {
            Status::OK => "OK"@,
            Status::NotFound => "Not Found"@,
            Status::BadRequest => "Bad Request"@,
            Status::InternalServerError => "Internal Server Error"@,
        }
    }

    /// The numeric code and the reason phrase.
    pub fn as_tuple(&self) -> (r: (u16, &'static str))
        ensures
            r.0 == self.code(),
            r.1@ == self.reason(),
    {
        match self {
            Status::OK => (200, "OK"),
            Status::NotFound => (404, "Not Found"),
            Status::BadRequest => (400, "Bad Request"),
            Status::InternalServerError => (500, "Internal Server Error"),
        }
    }
}

pub open spec fn digit_char(d: nat) -> char {
    if d == 0 {
        '0'
    } else if d == 1 {
        '1'
    } else if d == 2 {
        '2'
    } else if d == 3 {
        '3'
    } else if d == 4 {
        '4'
    } else if d == 5 {
        '5'
    } else if d == 6 {
        '6'
    } else if d == 7 {
        '7'
    } else if d == 8 {
        '8'
    } else {
        '9'
    }
}

/// The decimal digits of `n`, without sign or leading zeros.
pub open spec fn decimal_chars(n: nat) -> Seq<char>
    decreases n,
{
    if n < 10 {
        seq![digit_char(n)]
    } else {
        decimal_chars(n / 10).push(digit_char(n % 10))
    }
}

/// Relies on `usize`'s `to_string`: the decimal digits of the number, without
/// sign or leading zeros.
#[verifier::external_body]
fn decimal_string(n: usize) -> (r: String)
    ensures
        r@ == decimal_chars(n as nat),
{
    n.to_string()
}

/// The header lines `Name: value\r\n`, in order.
pub open spec fn header_bytes(pairs: Seq<(Seq<char>, Seq<char>)>) -> Seq<u8>
    decreases pairs.len(),
{
    if pairs.len() == 0 {
        Seq::empty()
    } else {
        header_bytes(pairs.drop_last()) + encode_utf8(pairs.last().0) + encode_utf8(": "@)
            + encode_utf8(pairs.last().1) + encode_utf8("\r\n"@)
    }
}

/// Everything before the body: the status line, the header lines and a blank line.
pub open spec fn head_bytes(status: Status, pairs: Seq<(Seq<char>, Seq<char>)>) -> Seq<u8> {
    encode_utf8("HTTP/1.1 "@) + encode_utf8(decimal_chars(status.code() as nat)) + encode_utf8(
        " "@,
    ) + encode_utf8(status.reason()) + encode_utf8("\r\n"@) + header_bytes(pairs) + encode_utf8(
        "\r\n"@,
    )
}

/// What a response holds, as values.
pub struct ResponseView {
    pub status: Status,
    pub headers: Seq<(Seq<char>, Seq<char>)>,
    pub body: Seq<u8>,
}

/// A plain-text response with the given body and status, as `text` builds it.
pub open spec fn plain_text(body: Seq<char>, status: Status) -> ResponseView {
    ResponseView {
        status,
        headers: length_header(encode_utf8(body).len()).push(("Content-Type"@, "text/plain"@)),
        body: encode_utf8(body),
    }
}

/// The header map that `Response::new` starts from.
pub open spec fn length_header(n: nat) -> Seq<(Seq<char>, Seq<char>)> {
    seq![("Content-Length"@, decimal_chars(n))]
}

fn push_bytes(out: &mut Vec<u8>, b: &[u8])
    ensures
        final(out)@ == old(out)@ + b@,
{
    let mut v = slice_to_vec(b);
    out.append(&mut v);
}

/// A response: a status, header fields and a body of raw bytes.
pub struct Response {
    status: Status,
    headers: FieldMap,
    body: Vec<u8>,
}

impl View for Response {
    type V = ResponseView;

    closed spec fn view(&self) -> ResponseView {
        ResponseView { status: self.status, headers: self.headers.pairs(), body: self.body@ }
    }
}

impl Response {
    pub closed spec fn wf(&self) -> bool {
        self.headers.wf()
    }

    /// A response with the given status and body and a `Content-Length`
    /// header that gives the body's length in bytes.
    pub fn new(status: Status, body: Vec<u8>) -> (r: Response)
        ensures
            r.wf(),
            r@.status == status,
            r@.body == body@,
            r@.headers == length_header(body@.len()),
    {
        let mut headers = FieldMap::new();
        headers.insert("Content-Length".to_owned(), decimal_string(body.len()));
        Response { status, headers, body }
    }

    fn with_type(body: &str, kind: &str) -> (r: Response)
        ensures
            r.wf(),
            r@.status == Status::OK,
            r@.body == encode_utf8(body@),
            r@.headers == length_header(encode_utf8(body@).len()).push(("Content-Type"@, kind@)),
    {
        let mut r = Response::new(Status::OK, slice_to_vec(body.as_bytes()));
        proof {
            reveal_strlit("Content-Type");
            reveal_strlit("Content-Length");
            assert("Content-Type"@[8] != "Content-Length"@[8]);
            let p = r.headers.pairs();
            assert(p.drop_last() =~= Seq::<(Seq<char>, Seq<char>)>::empty());
            assert(fields_map_of(p.drop_last()) == Map::<Seq<char>, Seq<char>>::empty());
            assert("Content-Type"@ != "Content-Length"@);
            assert(fields_map_of(p) == Map::<Seq<char>, Seq<char>>::empty().insert(
                p.last().0,
                p.last().1,
            ));
            assert(!fields_map_of(p).contains_key("Content-Type"@));
        }
        r.headers.insert("Content-Type".to_owned(), kind.to_owned());
        r
    }

    /// A `200 OK` response with a plain-text body.
    pub fn text(body: &str) -> (r: Response)
        ensures
            r.wf(),
            r@.status == Status::OK,
            r@.body == encode_utf8(body@),
            r@.headers == length_header(encode_utf8(body@).len()).push(
                ("Content-Type"@, "text/plain"@),
            ),
    {
        Response::with_type(body, "text/plain")
    }

    /// A `200 OK` response with an HTML body.
    pub fn html(body: &str) -> (r: Response)
        ensures
            r.wf(),
            r@.status == Status::OK,
            r@.body == encode_utf8(body@),
            r@.headers == length_header(encode_utf8(body@).len()).push(
                ("Content-Type"@, "text/html"@),
            ),
    {
        Response::with_type(body, "text/html")
    }

    /// A `200 OK` response with a JSON body.
    pub fn json(body: &str) -> (r: Response)
        ensures
            r.wf(),
            r@.status == Status::OK,
            r@.body == encode_utf8(body@),
            r@.headers == length_header(encode_utf8(body@).len()).push(
                ("Content-Type"@, "application/json"@),
            ),
    {
        Response::with_type(body, "application/json")
    }

    /// The same response with another status.
    pub fn status(self, new_status: Status) -> (r: Response)
        requires
            self.wf(),
        ensures
            r.wf(),
            r@ == (ResponseView { status: new_status, ..self@ }),
    {
        let mut s = self;
        s.status = new_status;
        s
    }

    /// The same response with the header `key` set to `value`; a header of
    /// that name keeps its place and takes the new value.
    pub fn header(self, key: &str, value: &str) -> (r: Response)
        requires
            self.wf(),
        ensures
            r.wf(),
            r@.status == self@.status,
            r@.body == self@.body,
            fields_map_of(r@.headers) == fields_map_of(self@.headers).insert(key@, value@),
            fields_map_of(self@.headers).contains_key(key@) ==> r@.headers == self@.headers.update(
                choose|i: int| 0 <= i < self@.headers.len() && self@.headers[i].0 == key@,
                (key@, value@),
            ),
            !fields_map_of(self@.headers).contains_key(key@) ==> r@.headers == self@.headers.push(
                (key@, value@),
            ),
    {
        let mut s = self;
        s.headers.insert(key.to_owned(), value.to_owned());
        s
    }

    /// The status code.
    pub fn status_code(&self) -> (r: u16)
        ensures
            r == self@.status.code(),
    {
        self.status.as_tuple().0
    }

    /// The header fields.
    pub fn headers(&self) -> (r: &FieldMap)
        ensures
            r.wf() == self.wf(),
            r.pairs() == self@.headers,
    {
        &self.headers
    }

    /// The body bytes.
    pub fn body(&self) -> (r: &[u8])
        ensures
            r@ == self@.body,
    {
        self.body.as_slice()
    }

    /// The bytes that precede the body on the wire: the status line
    /// `HTTP/1.1 <code> <reason>`, one `Name: value` line per header and a
    /// blank line, each ending in `\r\n`.
    pub fn head(&self) -> (r: Vec<u8>)
        ensures
            r@ == head_bytes(self@.status, self@.headers),
    {
        let (code, phrase) = self.status.as_tuple();
        let mut out: Vec<u8> = Vec::new();
        push_bytes(&mut out, "HTTP/1.1 ".as_bytes());
        let digits = decimal_string(code as usize);
        push_bytes(&mut out, digits.as_str().as_bytes());
        push_bytes(&mut out, " ".as_bytes());
        push_bytes(&mut out, phrase.as_bytes());
        push_bytes(&mut out, "\r\n".as_bytes());
        let ghost start = out@;
        let n = self.headers.len();
        let mut i: usize = 0;
        while i < n
            invariant
                n == self.headers.pairs().len(),
                i <= n,
                out@ == start + header_bytes(self.headers.pairs().subrange(0, i as int)),
            decreases n - i,
        {
            let (k, v) = self.headers.entry(i);
            push_bytes(&mut out, k.as_str().as_bytes());
            push_bytes(&mut out, ": ".as_bytes());
            push_bytes(&mut out, v.as_str().as_bytes());
            push_bytes(&mut out, "\r\n".as_bytes());
            let ghost p = self.headers.pairs();
            assert(p.subrange(0, i + 1).drop_last() =~= p.subrange(0, i as int));
            i = i + 1;
        }
        push_bytes(&mut out, "\r\n".as_bytes());
        assert(self.headers.pairs().subrange(0, n as int) =~= self.headers.pairs());
        out
    }

    /// The whole response as it goes on the wire: the head, then the body as
    /// raw bytes.
    pub fn serialize(&self) -> (r: Vec<u8>)
        ensures
            r@ == head_bytes(self@.status, self@.headers) + self@.body,
    {
        let mut out = self.head();
        push_bytes(&mut out, self.body.as_slice());
        out
    }

    /// The whole response as text: the head followed by the body, with byte
    /// sequences that are not UTF-8 replaced.
    pub fn to_http_string(&self) -> (r: String)
        ensures
            r@ == lossy_text(head_bytes(self@.status, self@.headers) + self@.body),
    {
        let wire = self.serialize();
        text_of(wire.as_slice())
    }
}

} // verus!
