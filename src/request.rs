use vstd::prelude::*;
use vstd::slice::{slice_subrange, slice_to_vec};
use crate::bytes::{
    is_space,
    is_separator_at,
    find_byte, find_byte_from, find_separator, find_separator_from, parse_usize, parse_usize_spec,
    skip_space, skip_space_from, skip_word, skip_word_from, trim, trim_bytes,
};
use crate::fields::FieldMap;
use crate::text::{lossy_text, text_of};

verus! {

/// Why a request could not be read.
#[derive(PartialEq, Eq, Structural, Clone, Copy, Debug)]
pub enum ParseError {
    /// The request line has fewer than two tokens.
    MalformedRequestLine,
    /// The first read holds no blank line between the header block and the body.
    MissingHeaderBodySeparator,
    /// Reading from the connection failed.
    Io,
}

/// How a run of `name<delimiter>value` entries is written.
#[derive(PartialEq, Eq, Structural, Clone, Copy, Debug)]
pub enum FieldSyntax {
    /// `k=v` pairs separated by `&`, taken as they are.
    Query,
    /// `Name: value` lines, name and value trimmed.
    Header,
}

pub open spec fn entry_separator(kind: FieldSyntax) -> u8 {
    match kind {
        FieldSyntax::Query => 38,
        FieldSyntax::Header => 10,
    }
}

pub open spec fn name_delimiter(kind: FieldSyntax) -> u8 {
    match kind {
        FieldSyntax::Query => 61,
        FieldSyntax::Header => 58,
    }
}

pub open spec fn field_part(kind: FieldSyntax, s: Seq<u8>) -> Seq<u8> {
    match kind {
        FieldSyntax::Query => s,
        FieldSyntax::Header => trim(s),
    }
}

/// One entry written into `m`; an entry without the delimiter is ignored.
pub open spec fn add_entry(kind: FieldSyntax, seg: Seq<u8>, m: Map<Seq<char>, Seq<char>>) -> Map<
    Seq<char>,
    Seq<char>,
> {
    let d = find_byte(seg, 0, name_delimiter(kind));
    if d < seg.len() {
        m.insert(
            lossy_text(field_part(kind, seg.subrange(0, d))),
            lossy_text(field_part(kind, seg.subrange(d + 1, seg.len() as int))),
        )
    } else {
        m
    }
}

/// The entries of `s` from position `i` on written into `m`, where the
/// current entry began at `start`.
pub open spec fn fold_entries(
    kind: FieldSyntax,
    s: Seq<u8>,
    i: int,
    start: int,
    m: Map<Seq<char>, Seq<char>>,
) -> Map<Seq<char>, Seq<char>>
    decreases s.len() - i,
{
    if i >= s.len() {
        add_entry(kind, s.subrange(start, s.len() as int), m)
    } else if s[i] == entry_separator(kind) {
        fold_entries(kind, s, i + 1, i + 1, add_entry(kind, s.subrange(start, i), m))
    } else {
        fold_entries(kind, s, i + 1, start, m)
    }
}

/// The map that the entries of `s` make, a later entry overriding an earlier one.
pub open spec fn fields_of(kind: FieldSyntax, s: Seq<u8>) -> Map<Seq<char>, Seq<char>> {
    fold_entries(kind, s, 0, 0, Map::empty())
}

/// The declared body length: the `Content-Length` value read as an unsigned
/// decimal, or zero when it is absent or does not read as one.
pub open spec fn content_length_of(headers: Map<Seq<char>, Seq<char>>) -> usize {
    if headers.contains_key("Content-Length"@) {
        match parse_usize_spec(vstd::utf8::encode_utf8(headers["Content-Length"@])) {
            Some(n) => n,
            None => 0,
        }
    } else {
        0
    }
}

/// What a request holds, as values.
pub struct RequestView {
    pub method: Seq<char>,
    pub path: Seq<char>,
    pub headers: Map<Seq<char>, Seq<char>>,
    pub query: Map<Seq<char>, Seq<char>>,
    pub raw: Seq<char>,
    pub body: Seq<u8>,
}

/// The request line: the bytes before the first line feed.
pub open spec fn request_line(d: Seq<u8>) -> Seq<u8> {
    d.subrange(0, find_byte(d, 0, 10))
}

/// Start and end of the first two whitespace-separated tokens of `l`.
pub open spec fn token_bounds(l: Seq<u8>) -> (int, int, int, int) {
    let a = skip_space(l, 0);
    let b = skip_word(l, a);
    let c = skip_space(l, b);
    let e = skip_word(l, c);
    (a, b, c, e)
}

/// The header lines: what follows the request line within the header block.
pub open spec fn header_lines(head: Seq<u8>) -> Seq<u8> {
    let nl = find_byte(head, 0, 10);
    if nl < head.len() {
        head.subrange(nl + 1, head.len() as int)
    } else {
        Seq::empty()
    }
}

/// The path and query of a request target split at the first `?`.
pub open spec fn target_parts(t: Seq<u8>) -> (Seq<u8>, Map<Seq<char>, Seq<char>>) {
    let q = find_byte(t, 0, 63);
    (
        t.subrange(0, q),
        if q < t.len() {
            fields_of(FieldSyntax::Query, t.subrange(q + 1, t.len() as int))
        } else {
            Map::empty()
        },
    )
}

/// The request that the bytes of a first read make, with the body bytes that
/// arrived with it, at most the declared length.
pub open spec fn parse_request(d: Seq<u8>) -> Result<RequestView, ParseError> {
    let l = request_line(d);
    let (a, b, c, e) = token_bounds(l);
    let sep = find_separator(d, 0);
    if c >= l.len() {
        Err(ParseError::MalformedRequestLine)
    } else if sep >= d.len() {
        Err(ParseError::MissingHeaderBodySeparator)
    } else {
        let (path, query) = target_parts(l.subrange(c, e));
        let headers = fields_of(FieldSyntax::Header, header_lines(d.subrange(0, sep)));
        let rest = d.subrange(sep + 4, d.len() as int);
        let n = content_length_of(headers);
        let take = if rest.len() < n { rest.len() as int } else { n as int };
        Ok(
            RequestView {
                method: lossy_text(l.subrange(a, b)),
                path: lossy_text(path),
                headers,
                query,
                raw: lossy_text(d),
                body: rest.subrange(0, take),
            },
        )
    }
}

fn add_entry_exec(m: &mut FieldMap, kind: FieldSyntax, seg: &[u8])
    requires
        old(m).wf(),
    ensures
        final(m).wf(),
        final(m)@ == add_entry(kind, seg@, old(m)@),
{
    let delim: u8 = match kind {
        FieldSyntax::Query => 61,
        FieldSyntax::Header => 58,
    };
    let d = find_byte_from(seg, 0, delim);
    if d < seg.len() {
        let name = slice_subrange(seg, 0, d);
        let value = slice_subrange(seg, d + 1, seg.len());
        match kind {
            FieldSyntax::Query => m.insert(text_of(name), text_of(value)),
            FieldSyntax::Header => m.insert(text_of(trim_bytes(name)), text_of(trim_bytes(value))),
        }
    }
}

/// Reads a run of entries, such as a query string or the header lines of a
/// request, into a map; a later entry overrides an earlier one with the same
/// name, and an entry without its delimiter is ignored.
pub fn parse_fields(s: &[u8], kind: FieldSyntax) -> (r: FieldMap)
    ensures
        r.wf(),
        r@ == fields_of(kind, s@),
{
    let sep: u8 = match kind {
        FieldSyntax::Query => 38,
        FieldSyntax::Header => 10,
    };
    let mut m = FieldMap::new();
    let mut start: usize = 0;
    let mut i: usize = 0;
    while i < s.len()
        invariant
            start <= i <= s@.len(),
            sep == entry_separator(kind),
            m.wf(),
            fields_of(kind, s@) == fold_entries(kind, s@, i as int, start as int, m@),
        decreases s@.len() - i,
    {
        if s[i] == sep {
            add_entry_exec(&mut m, kind, slice_subrange(s, start, i));
            start = i + 1;
        }
        i = i + 1;
    }
    add_entry_exec(&mut m, kind, slice_subrange(s, start, s.len()));
    m
}

/// One request read off a connection.
pub struct Request {
    pub method: String,
    pub path: String,
    pub headers: FieldMap,
    pub query: FieldMap,
    pub raw: String,
    pub body: Vec<u8>,
}

impl View for Request {
    type V = RequestView;

    open spec fn view(&self) -> RequestView {
        RequestView {
            method: self.method@,
            path: self.path@,
            headers: self.headers@,
            query: self.query@,
            raw: self.raw@,
            body: self.body@,
        }
    }
}

/// The `Content-Length` value of a header map read as an unsigned decimal, or
/// zero.
pub fn declared_length(headers: &FieldMap) -> (r: usize)
    requires
        headers.wf(),
    ensures
        r == content_length_of(headers@),
{
    match headers.get("Content-Length") {
        Some(v) => match parse_usize(v.as_str().as_bytes()) {
            Some(n) => n,
            None => 0,
        },
        None => 0,
    }
}

impl Request {
    pub open spec fn wf(&self) -> bool {
        &&& self.headers.wf()
        &&& self.query.wf()
        &&& self.body@.len() <= content_length_of(self.headers@)
    }

    /// Builds a request from the bytes of the first read of a connection. The
    /// body holds the bytes after the header block, at most the declared
    /// length; `body_shortfall` says how many are still to be read.
    pub fn from_bytes(data: &[u8]) -> (r: Result<Request, ParseError>)
        ensures
            match r {
                Ok(req) => req.wf() && parse_request(data@) == Ok::<RequestView, ParseError>(req@),
                Err(e) => parse_request(data@) == Err::<RequestView, ParseError>(e),
            },
    {
        let line_end = find_byte_from(data, 0, 10);
        let line = slice_subrange(data, 0, line_end);
        let a = skip_space_from(line, 0);
        let b = skip_word_from(line, a);
        let c = skip_space_from(line, b);
        if c >= line.len() {
            return Err(ParseError::MalformedRequestLine);
        }
        let e = skip_word_from(line, c);
        let sep = find_separator_from(data, 0);
        if sep >= data.len() {
            return Err(ParseError::MissingHeaderBodySeparator);
        }
        let method = text_of(slice_subrange(line, a, b));
        let target = slice_subrange(line, c, e);
        let q = find_byte_from(target, 0, 63);
        let path = text_of(slice_subrange(target, 0, q));
        let query = if q < target.len() {
            parse_fields(slice_subrange(target, q + 1, target.len()), FieldSyntax::Query)
        } else {
            FieldMap::new()
        };
        let head = slice_subrange(data, 0, sep);
        let nl = find_byte_from(head, 0, 10);
        let headers = if nl < head.len() {
            parse_fields(slice_subrange(head, nl + 1, head.len()), FieldSyntax::Header)
        } else {
            let hm = FieldMap::new();
            assert(header_lines(head@) =~= Seq::<u8>::empty());
            assert(fields_of(FieldSyntax::Header, Seq::<u8>::empty()) =~= hm@);
            hm
        };
        let n = declared_length(&headers);
        let rest = slice_subrange(data, sep + 4, data.len());
        let take = if rest.len() < n {
            rest.len()
        } else {
            n
        };
        let body = slice_to_vec(slice_subrange(rest, 0, take));
        let raw = text_of(data);
        let req = Request { method, path, headers, query, raw, body };
        Ok(req)
    }
    /// How many body bytes the declared length still asks for beyond those
    /// already held.
    pub fn body_shortfall(&self) -> (r: usize)
        requires
            self.wf(),
        ensures
            r == content_length_of(self.headers@) - self.body@.len(),
    {
        declared_length(&self.headers) - self.body.len()
    }

    /// Completes the body with the bytes that a later read brought, exactly
    /// the shortfall.
    pub fn append_body(&mut self, more: &[u8])
        requires
            old(self).wf(),
            more@.len() == content_length_of(old(self).headers@) - old(self).body@.len(),
        ensures
            final(self).wf(),
            final(self).body@ == old(self).body@ + more@,
            final(self).body@.len() == content_length_of(final(self).headers@),
            final(self).method == old(self).method,
            final(self).path == old(self).path,
            final(self).headers == old(self).headers,
            final(self).query == old(self).query,
            final(self).raw == old(self).raw,
    {
        let mut extra = slice_to_vec(more);
        self.body.append(&mut extra);
    }
}

proof fn lemma_find_separator(s: Seq<u8>, i: int)
    requires
        0 <= i,
    ensures
        find_separator(s, i) == s.len() || (i <= find_separator(s, i) && is_separator_at(
            s,
            find_separator(s, i),
        )),
    decreases s.len() - i,
{
    if i + 4 <= s.len() && !is_separator_at(s, i) {
        lemma_find_separator(s, i + 1);
    }
}

proof fn lemma_find_byte_at(s: Seq<u8>, i: int, j: int, b: u8)
    requires
        0 <= i <= j <= s.len(),
        forall|k: int| i <= k < j ==> s[k] != b,
        j == s.len() || s[j] == b,
    ensures
        find_byte(s, i, b) == j,
    decreases j - i,
{
    if i < j {
        lemma_find_byte_at(s, i + 1, j, b);
    }
}

proof fn lemma_fold_entries_skip(
    kind: FieldSyntax,
    s: Seq<u8>,
    i: int,
    j: int,
    start: int,
    m: Map<Seq<char>, Seq<char>>,
)
    requires
        0 <= i <= j <= s.len(),
        forall|k: int| i <= k < j ==> s[k] != entry_separator(kind),
    ensures
        fold_entries(kind, s, i, start, m) == fold_entries(kind, s, j, start, m),
    decreases j - i,
{
    if i < j {
        lemma_fold_entries_skip(kind, s, i + 1, j, start, m);
    }
}

proof fn lemma_query_pair(k: Seq<u8>, v: Seq<u8>, m: Map<Seq<char>, Seq<char>>)
    requires
        !k.contains(61),
    ensures
        add_entry(FieldSyntax::Query, k + seq![61u8] + v, m) == m.insert(lossy_text(k), lossy_text(v)),
{
    let seg = k + seq![61u8] + v;
    assert forall|x: int| 0 <= x < k.len() implies seg[x] != 61 by {
        assert(seg[x] == k[x]);
    }
    lemma_find_byte_at(seg, 0, k.len() as int, 61);
    assert(seg.subrange(0, k.len() as int) =~= k);
    assert(seg.subrange(k.len() as int + 1, seg.len() as int) =~= v);
}

/// A body declared by `Content-Length` is owed in full: the bytes that came
/// with the first read, never more than the declared length, together with
/// exactly the shortfall read afterwards make a body of the declared length;
/// when the first read already holds that many bytes after the header block,
/// the body is exactly those bytes.
pub proof fn lemma_body_length(d: Seq<u8>, more: Seq<u8>)
    requires
        parse_request(d) is Ok,
        more.len() == content_length_of(parse_request(d)->Ok_0.headers) - parse_request(
            d,
        )->Ok_0.body.len(),
    ensures
        ({
            let v = parse_request(d)->Ok_0;
            let n = content_length_of(v.headers) as int;
            let at = find_separator(d, 0) + 4;
            &&& v.body.len() <= n
            &&& (v.body + more).len() == n
            &&& d.len() - at >= n ==> v.body == d.subrange(at, at + n)
        }),
{
    lemma_find_separator(d, 0);
    let sep = find_separator(d, 0);
    let v = parse_request(d)->Ok_0;
    let n = content_length_of(v.headers) as int;
    let rest = d.subrange(sep + 4, d.len() as int);
    if d.len() - (sep + 4) >= n {
        assert(rest.subrange(0, n) =~= d.subrange(sep + 4, sep + 4 + n));
    }
}

/// Bytes with no blank line after the header block are never taken for a
/// request: they are refused, whatever their request line holds.
pub proof fn lemma_missing_separator_refused(d: Seq<u8>)
    requires
        find_separator(d, 0) == d.len(),
    ensures
        parse_request(d) is Err,
{
}

/// A query string `k1=v1&k2=v2` gives exactly the map `{k1: v1, k2: v2}`,
/// the second pair winning when the two names are the same, and the path is
/// what stands before the `?`.
pub proof fn lemma_query_round_trip(
    path: Seq<u8>,
    k1: Seq<u8>,
    v1: Seq<u8>,
    k2: Seq<u8>,
    v2: Seq<u8>,
)
    requires
        !path.contains(63),
        !k1.contains(61),
        !k1.contains(38),
        !v1.contains(38),
        !k2.contains(61),
        !k2.contains(38),
        !v2.contains(38),
    ensures
        ({
            let q = k1 + seq![61u8] + v1 + seq![38u8] + k2 + seq![61u8] + v2;
            let (p, m) = target_parts(path + seq![63u8] + q);
            &&& p == path
            &&& m == map![lossy_text(k1) => lossy_text(v1), lossy_text(k2) => lossy_text(v2)]
            &&& fields_of(FieldSyntax::Query, q) == m
            &&& m[lossy_text(k2)] == lossy_text(v2)
        }),
{
    let q = k1 + seq![61u8] + v1 + seq![38u8] + k2 + seq![61u8] + v2;
    let t = path + seq![63u8] + q;
    assert forall|x: int| 0 <= x < path.len() implies t[x] != 63 by {
        assert(t[x] == path[x]);
    }
    lemma_find_byte_at(t, 0, path.len() as int, 63);
    assert(t.subrange(0, path.len() as int) =~= path);
    assert(t.subrange(path.len() as int + 1, t.len() as int) =~= q);
    let j1: int = k1.len() as int + 1 + v1.len() as int;
    assert forall|x: int| 0 <= x < j1 implies q[x] != 38 by {
        if x < k1.len() {
            assert(q[x] == k1[x]);
        } else if x > k1.len() {
            assert(q[x] == v1[x - k1.len() - 1]);
        }
    }
    let empty = Map::<Seq<char>, Seq<char>>::empty();
    lemma_fold_entries_skip(FieldSyntax::Query, q, 0, j1, 0, empty);
    assert(q[j1] == 38);
    assert(q.subrange(0, j1) =~= k1 + seq![61u8] + v1);
    lemma_query_pair(k1, v1, empty);
    let m1 = empty.insert(lossy_text(k1), lossy_text(v1));
    assert forall|x: int| j1 + 1 <= x < q.len() implies q[x] != 38 by {
        let y = x - j1 - 1;
        if y < k2.len() {
            assert(q[x] == k2[y]);
        } else if y > k2.len() {
            assert(q[x] == v2[y - k2.len() - 1]);
        }
    }
    lemma_fold_entries_skip(FieldSyntax::Query, q, j1 + 1, q.len() as int, j1 + 1, m1);
    assert(q.subrange(j1 + 1, q.len() as int) =~= k2 + seq![61u8] + v2);
    lemma_query_pair(k2, v2, m1);
}

proof fn lemma_skip_word_at(s: Seq<u8>, i: int, j: int)
    requires
        0 <= i <= j <= s.len(),
        forall|k: int| i <= k < j ==> !is_space(#[trigger] s[k]),
        j == s.len() || is_space(s[j]),
    ensures
        skip_word(s, i) == j,
    decreases j - i,
{
    if i < j {
        lemma_skip_word_at(s, i + 1, j);
    }
}

proof fn lemma_find_separator_at(s: Seq<u8>, i: int, j: int)
    requires
        0 <= i <= j,
        forall|k: int| i <= k < j ==> s[k] != 13,
        is_separator_at(s, j),
    ensures
        find_separator(s, i) == j,
    decreases j - i,
{
    if i < j {
        lemma_find_separator_at(s, i + 1, j);
    }
}

/// No byte of `s` is ASCII whitespace.
pub open spec fn no_space(s: Seq<u8>) -> bool {
    forall|i: int| 0 <= i < s.len() ==> !is_space(#[trigger] s[i])
}

proof fn lemma_request_target(method: Seq<u8>, t: Seq<u8>)
    requires
        method.len() > 0,
        t.len() > 0,
        no_space(method),
        no_space(t),
    ensures
        ({
            let d = method + seq![32u8] + t + seq![13u8, 10u8, 13u8, 10u8];
            &&& parse_request(d) is Ok
            &&& parse_request(d)->Ok_0.method == lossy_text(method)
            &&& parse_request(d)->Ok_0.path == lossy_text(target_parts(t).0)
            &&& parse_request(d)->Ok_0.query == target_parts(t).1
        }),
{
    let d = method + seq![32u8] + t + seq![13u8, 10u8, 13u8, 10u8];
    let ml = method.len() as int;
    let tl = t.len() as int;
    assert forall|x: int| 0 <= x < ml + 1 + tl implies d[x] != 10 && d[x] != 13 by {
        if x < ml {
            assert(d[x] == method[x]);
        } else if x > ml {
            assert(d[x] == t[x - ml - 1]);
        }
    }
    let nl = ml + 1 + tl + 1;
    lemma_find_byte_at(d, 0, nl, 10);
    let l = request_line(d);
    assert(l =~= method + seq![32u8] + t + seq![13u8]);
    assert(!is_space(l[0]));
    assert(skip_space(l, 0) == 0);
    assert forall|x: int| 0 <= x < ml implies !is_space(#[trigger] l[x]) by {
        assert(l[x] == method[x]);
    }
    lemma_skip_word_at(l, 0, ml);
    assert(!is_space(l[ml + 1])) by {
        assert(l[ml + 1] == t[0]);
    }
    assert(l[ml] == 32);
    assert(skip_space(l, ml + 1) == ml + 1);
    assert(skip_space(l, ml) == ml + 1);
    assert forall|x: int| ml + 1 <= x < ml + 1 + tl implies !is_space(#[trigger] l[x]) by {
        assert(l[x] == t[x - ml - 1]);
    }
    lemma_skip_word_at(l, ml + 1, ml + 1 + tl);
    assert(l.subrange(ml + 1, ml + 1 + tl) =~= t);
    assert(l.subrange(0, ml) =~= method);
    lemma_find_separator_at(d, 0, ml + 1 + tl);
}

proof fn lemma_no_space_concat(a: Seq<u8>, b: Seq<u8>)
    requires
        no_space(a),
        no_space(b),
    ensures
        no_space(a + b),
{
    assert forall|i: int| 0 <= i < (a + b).len() implies !is_space(#[trigger] (a + b)[i]) by {
        if i < a.len() {
            assert((a + b)[i] == a[i]);
        } else {
            assert((a + b)[i] == b[i - a.len()]);
        }
    }
}

/// A request `METHOD path?query` followed by an empty header block is read
/// with exactly that method and path, and with the query map that the
/// `&`-separated pairs of the query make from left to right: a pair with `=`
/// sets the text before its first `=` to the text after it, overriding an
/// earlier pair of the same name, a pair without `=` is skipped, and no
/// `%XX` sequence is decoded.
pub proof fn lemma_request_query(method: Seq<u8>, path: Seq<u8>, query: Seq<u8>)
    requires
        method.len() > 0,
        no_space(method),
        no_space(path),
        no_space(query),
        !path.contains(63),
    ensures
        ({
            let d = method + seq![32u8] + path + seq![63u8] + query + seq![13u8, 10u8, 13u8, 10u8];
            &&& parse_request(d) is Ok
            &&& parse_request(d)->Ok_0.method == lossy_text(method)
            &&& parse_request(d)->Ok_0.path == lossy_text(path)
            &&& parse_request(d)->Ok_0.query == fields_of(FieldSyntax::Query, query)
        }),
{
    let t = path + seq![63u8] + query;
    assert(no_space(seq![63u8]));
    lemma_no_space_concat(path, seq![63u8]);
    lemma_no_space_concat(path + seq![63u8], query);
    lemma_request_target(method, t);
    assert(method + seq![32u8] + path + seq![63u8] + query + seq![13u8, 10u8, 13u8, 10u8]
        =~= method + seq![32u8] + t + seq![13u8, 10u8, 13u8, 10u8]);
    assert forall|x: int| 0 <= x < path.len() implies t[x] != 63 by {
        assert(t[x] == path[x]);
    }
    lemma_find_byte_at(t, 0, path.len() as int, 63);
    assert(t.subrange(0, path.len() as int) =~= path);
    assert(t.subrange(path.len() as int + 1, t.len() as int) =~= query);
}

/// A request `METHOD path?k1=v1&k2=v2` followed by an empty header block is
/// read with exactly that method and path and the query map
/// `{k1: v1, k2: v2}`, the second pair winning when the names are the same.
pub proof fn lemma_request_query_round_trip(
    method: Seq<u8>,
    path: Seq<u8>,
    k1: Seq<u8>,
    v1: Seq<u8>,
    k2: Seq<u8>,
    v2: Seq<u8>,
)
    requires
        method.len() > 0,
        no_space(method),
        no_space(path),
        no_space(k1),
        no_space(v1),
        no_space(k2),
        no_space(v2),
        !path.contains(63),
        !k1.contains(61),
        !k1.contains(38),
        !v1.contains(38),
        !k2.contains(61),
        !k2.contains(38),
        !v2.contains(38),
    ensures
        ({
            let t = path + seq![63u8] + k1 + seq![61u8] + v1 + seq![38u8] + k2 + seq![61u8] + v2;
            let d = method + seq![32u8] + t + seq![13u8, 10u8, 13u8, 10u8];
            &&& parse_request(d) is Ok
            &&& parse_request(d)->Ok_0.method == lossy_text(method)
            &&& parse_request(d)->Ok_0.path == lossy_text(path)
            &&& parse_request(d)->Ok_0.query == map![lossy_text(k1) => lossy_text(v1), lossy_text(k2) => lossy_text(v2)]
        }),
{
    let q = k1 + seq![61u8] + v1 + seq![38u8] + k2 + seq![61u8] + v2;
    assert(no_space(seq![61u8]));
    assert(no_space(seq![38u8]));
    lemma_no_space_concat(k1, seq![61u8]);
    lemma_no_space_concat(k1 + seq![61u8], v1);
    lemma_no_space_concat(k1 + seq![61u8] + v1, seq![38u8]);
    lemma_no_space_concat(k1 + seq![61u8] + v1 + seq![38u8], k2);
    lemma_no_space_concat(k1 + seq![61u8] + v1 + seq![38u8] + k2, seq![61u8]);
    lemma_no_space_concat(k1 + seq![61u8] + v1 + seq![38u8] + k2 + seq![61u8], v2);
    lemma_request_query(method, path, q);
    assert(method + seq![32u8] + (path + seq![63u8] + k1 + seq![61u8] + v1 + seq![38u8] + k2
        + seq![61u8] + v2) + seq![13u8, 10u8, 13u8, 10u8] =~= method + seq![32u8] + path
        + seq![63u8] + q + seq![13u8, 10u8, 13u8, 10u8]);
    lemma_query_round_trip(path, k1, v1, k2, v2);
}

} // verus!
