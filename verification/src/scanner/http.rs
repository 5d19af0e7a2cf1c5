//! A minimal HTTP/1.1 codec: one request and one response per connection.
//!
//! Requests carry `Connection: close`, so a response's body runs to the end of
//! the connection, or is decoded from chunks where the server insists.

use crate::error::{ErrorView, ScanError};
use crate::text;
use vstd::prelude::*;
use vstd::slice::slice_subrange;
use vstd::utf8;

verus! {

#[derive(Clone, Copy, Debug, PartialEq, Eq, Structural)]
pub enum Scheme {
    Http,
    Https,
}

/// A response: its status code, its header fields in the order received, and
/// its decoded body.
#[derive(Debug)]
pub struct HttpResponse {
    pub status: u16,
    pub headers: Vec<(String, String)>,
    pub body: Vec<u8>,
}

/// What an [`HttpResponse`] holds.
pub struct ResponseView {
    pub status: nat,
    pub headers: Seq<(Seq<char>, Seq<char>)>,
    pub body: Seq<u8>,
}

/// What a list of header fields holds.
pub open spec fn field_views(fields: Seq<(String, String)>) -> Seq<(Seq<char>, Seq<char>)> {
    Seq::new(fields.len(), |i: int| (fields[i].0@, fields[i].1@))
}

/// What a list of borrowed header fields holds.
pub open spec fn pair_views(fields: Seq<(&str, &str)>) -> Seq<(Seq<char>, Seq<char>)> {
    Seq::new(fields.len(), |i: int| (fields[i].0@, fields[i].1@))
}

impl View for HttpResponse {
    type V = ResponseView;

    open spec fn view(&self) -> ResponseView {
        ResponseView {
            status: self.status as nat,
            headers: field_views(self.headers@),
            body: self.body@,
        }
    }
}

/// What parsing a response gives.
pub open spec fn response_view(r: Result<HttpResponse, ScanError>) -> Result<
    ResponseView,
    ErrorView,
> {
    match r {
        Ok(v) => Ok(v@),
        Err(e) => Err(e@),
    }
}

/// What decoding a body gives.
pub open spec fn body_view(r: Result<Vec<u8>, ScanError>) -> Result<Seq<u8>, ErrorView> {
    match r {
        Ok(v) => Ok(v@),
        Err(e) => Err(e@),
    }
}

/// The end of a line, in octets.
pub open spec fn line_end() -> Seq<u8> {
    seq![13u8, 10u8]
}

/// The end of the header section: that of its last line, then an empty line.
pub open spec fn head_end() -> Seq<u8> {
    seq![13u8, 10u8, 13u8, 10u8]
}

/// The lines of header fields, each with its end.
pub open spec fn field_lines(fields: Seq<(Seq<char>, Seq<char>)>) -> Seq<char>
    decreases fields.len(),
{
    if fields.len() == 0 {
        seq![]
    } else {
        field_lines(fields.drop_last()) + fields.last().0 + ": "@ + fields.last().1 + "\r\n"@
    }
}

/// The line that announces a body.
pub open spec fn length_line(body_len: Option<nat>) -> Seq<char> {
    match body_len {
        Some(n) => "Content-Length: "@ + text::decimal(n) + "\r\n"@,
        None => seq![],
    }
}

/// The header section of a request, with the empty line that ends it.
pub open spec fn request_head(
    method: Seq<char>,
    host: Seq<char>,
    path: Seq<char>,
    fields: Seq<(Seq<char>, Seq<char>)>,
    body_len: Option<nat>,
) -> Seq<char> {
    method + " "@ + path + " HTTP/1.1\r\nHost: "@ + host
        + "\r\nUser-Agent: russl/0.1\r\nConnection: close\r\n"@ + field_lines(fields)
        + length_line(body_len) + "\r\n"@
}

/// The octets of a single request: request line, `Host`, `User-Agent`,
/// `Connection: close`, the extra fields, and `Content-Length` and the body
/// where there is one.
pub fn request(
    method: &str,
    host: &str,
    path: &str,
    extra_headers: &[(&str, &str)],
    body: Option<&[u8]>,
) -> (r: Vec<u8>)
    ensures
        r@ == utf8::encode_utf8(
            request_head(
                method@,
                host@,
                path@,
                pair_views(extra_headers@),
                match body {
                    Some(b) => Some(b@.len()),
                    None => None,
                },
            ),
        ) + (match body {
            Some(b) => b@,
            None => seq![],
        }),
{
    let mut head = String::new();
    head.append(method);
    head.append(" ");
    head.append(path);
    head.append(" HTTP/1.1\r\nHost: ");
    head.append(host);
    head.append("\r\nUser-Agent: russl/0.1\r\nConnection: close\r\n");
    let ghost start = head@;
    let ghost fields = pair_views(extra_headers@);
    let mut i: usize = 0;
    proof {
        assert(fields.take(0) =~= Seq::<(Seq<char>, Seq<char>)>::empty());
        assert(start + field_lines(fields.take(0)) =~= start);
    }
    while i < extra_headers.len()
        invariant
            0 <= i <= extra_headers@.len(),
            fields == pair_views(extra_headers@),
            head@ == start + field_lines(fields.take(i as int)),
        decreases extra_headers@.len() - i,
    {
        let (k, v) = extra_headers[i];
        head.append(k);
        head.append(": ");
        head.append(v);
        head.append("\r\n");
        proof {
            let t = fields.take(i + 1);
            assert(t.drop_last() =~= fields.take(i as int));
            assert(t.last() == (k@, v@));
            assert(head@ =~= start + field_lines(t));
        }
        i += 1;
    }
    proof {
        assert(fields.take(fields.len() as int) =~= fields);
    }
    let ghost length = length_line(
        match body {
            Some(b) => Some(b@.len()),
            None => None,
        },
    );
    let ghost before = head@;
    match body {
        Some(b) => {
            head.append("Content-Length: ");
            let digits = text::decimal_text(b.len() as u64);
            head.append(digits.as_str());
            head.append("\r\n");
            proof {
                assert(head@ =~= before + length);
            }
        },
        None => {
            proof {
                assert(head@ =~= before + length);
            }
        },
    }
    head.append("\r\n");
    let mut out: Vec<u8> = Vec::new();
    out.extend_from_slice(head.as_str().as_bytes());
    match body {
        Some(b) => {
            out.extend_from_slice(b);
        },
        None => {},
    }
    proof {
        assert(out@ =~= utf8::encode_utf8(head@) + (match body {
            Some(b) => b@,
            None => seq![],
        }));
    }
    out
}

/// Whether `needle` stands at position `i`.
fn stands_at(haystack: &[u8], needle: &[u8], i: usize) -> (r: bool)
    requires
        i + needle@.len() <= haystack@.len(),
    ensures
        r == text::occurs_at(haystack@, needle@, i as int),
{
    let end: usize = haystack.len();
    let mut j: usize = 0;
    while j < needle.len()
        invariant
            0 <= j <= needle@.len(),
            i + needle@.len() <= haystack@.len(),
            haystack@.len() == end,
            forall|k: int| 0 <= k < j ==> haystack@[i + k] == #[trigger] needle@[k],
        decreases needle@.len() - j,
    {
        if haystack[i + j] != needle[j] {
            proof {
                assert(haystack@.subrange(i as int, i + needle@.len() as int)[j as int]
                    != needle@[j as int]);
            }
            return false;
        }
        j += 1;
    }
    proof {
        assert(haystack@.subrange(i as int, i + needle@.len() as int) =~= needle@);
    }
    true
}

/// The first position at which `needle` stands in `haystack`.
pub fn find_subsequence(haystack: &[u8], needle: &[u8]) -> (r: Option<usize>)
    requires
        needle@.len() > 0,
    ensures
        match r {
            Some(i) => text::first_of(haystack@, needle@) == Some(i as nat),
            None => text::first_of(haystack@, needle@) is None,
        },
        match r {
            Some(i) => {
                &&& text::occurs_at(haystack@, needle@, i as int)
                &&& forall|j: int| 0 <= j < i ==> !text::occurs_at(haystack@, needle@, j)
            },
            None => !text::holds(haystack@, needle@),
        },
{
    proof {
        text::law_first_from(haystack@, needle@, 0);
    }
    if haystack.len() < needle.len() {
        return None;
    }
    let last: usize = haystack.len() - needle.len();
    let mut i: usize = 0;
    loop
        invariant
            0 <= i <= last,
            last + needle@.len() == haystack@.len(),
            text::first_of(haystack@, needle@) == text::first_from(haystack@, needle@, i as nat),
            match text::first_of(haystack@, needle@) {
                Some(i) => {
                    &&& text::occurs_at(haystack@, needle@, i as int)
                    &&& forall|j: int| 0 <= j < i ==> !text::occurs_at(haystack@, needle@, j)
                },
                None => !text::holds(haystack@, needle@),
            },
        decreases last - i,
    {
        if stands_at(haystack, needle, i) {
            return Some(i);
        }
        if i == last {
            proof {
                assert(text::first_from(haystack@, needle@, (i + 1) as nat) is None);
            }
            return None;
        }
        i += 1;
    }
}

/// `std::str::from_utf8`: the text that octets encode, where they are valid
/// UTF-8, and nothing where they are not.
#[verifier::external_body]
fn utf8_text(data: &[u8]) -> (r: Option<&str>)
    ensures
        match r {
            Some(s) => utf8::valid_utf8(data@) && s@ == utf8::decode_utf8(data@),
            None => !utf8::valid_utf8(data@),
        },
{
    std::str::from_utf8(data).ok()
}

/// The text that `String::from_utf8_lossy` makes of octets.
pub uninterp spec fn lossy_text(data: Seq<u8>) -> Seq<char>;

/// `String::from_utf8_lossy`: the text that octets encode where they are valid
/// UTF-8; else a text with replacement characters that depends on the octets
/// alone.
#[verifier::external_body]
fn lossy(data: &[u8]) -> (r: String)
    ensures
        r@ == lossy_text(data@),
        utf8::valid_utf8(data@) ==> r@ == utf8::decode_utf8(data@),
{
    String::from_utf8_lossy(data).into_owned()
}

/// The size in a chunk's first line: what stands before any `;`, trimmed.
pub open spec fn chunk_size_text(line: Seq<char>) -> Seq<char> {
    text::trimmed(text::pieces(line, seq![';'])[0])
}

/// What follows a chunk's data: the end of line after it is skipped, unheeded.
pub open spec fn after_chunk(data: Seq<u8>) -> Seq<u8> {
    if data.len() >= 2 {
        data.skip(2)
    } else {
        data
    }
}

/// The body that chunks carry, up to the chunk of size zero; what follows that
/// chunk is ignored.
pub open spec fn dechunked(data: Seq<u8>) -> Result<Seq<u8>, ErrorView>
    decreases data.len(),
{
    match text::first_of(data, line_end()) {
        None => Err(ErrorView::Http("malformed chunk header"@)),
        Some(i) => {
            proof {
                text::law_first_from(data, line_end(), 0);
            }
            let line = data.take(i as int);
            let rest = data.skip(i as int + 2);
            if !utf8::valid_utf8(line) {
                Err(ErrorView::Http("non-utf8 chunk size"@))
            } else {
                let size = chunk_size_text(utf8::decode_utf8(line));
                match text::number(size, 16, usize::MAX as nat) {
                    None => Err(ErrorView::Http("bad chunk size: "@ + size)),
                    Some(n) => if n == 0 {
                        Ok(seq![])
                    } else if rest.len() < n {
                        Err(ErrorView::Http("truncated chunk body"@))
                    } else {
                        match dechunked(after_chunk(rest.skip(n as int))) {
                            Ok(more) => Ok(rest.take(n as int) + more),
                            Err(e) => Err(e),
                        }
                    },
                }
            }
        },
    }
}

/// Decode HTTP/1.1 chunked transfer-encoding. Trailers are ignored.
pub fn decode_chunked(data: &[u8]) -> (r: Result<Vec<u8>, ScanError>)
    ensures
        body_view(r) == dechunked(data@),
{
    let crlf: [u8; 2] = [13, 10];
    let semicolon: [char; 1] = [';'];
    proof {
        assert(crlf@ =~= line_end());
        assert(semicolon@ =~= seq![';']);
    }
    let mut out: Vec<u8> = Vec::new();
    let mut rest: &[u8] = data;
    loop
        invariant
            crlf@ == line_end(),
            semicolon@ == seq![';'],
            dechunked(data@) == (match dechunked(rest@) {
                Ok(more) => Ok(out@ + more),
                Err(e) => Err(e),
            }),
        decreases rest@.len(),
    {
        let nl: usize = match find_subsequence(rest, crlf.as_slice()) {
            Some(i) => i,
            None => {
                return Err(ScanError::Http("malformed chunk header".to_string()));
            },
        };
        let line = slice_subrange(rest, 0, nl);
        let end: usize = rest.len();
        let after = slice_subrange(rest, nl + 2, end);
        proof {
            assert(line@ =~= rest@.take(nl as int));
            assert(after@ =~= rest@.skip(nl as int + 2));
        }
        let line_text = match utf8_text(line) {
            Some(s) => s,
            None => {
                return Err(ScanError::Http("non-utf8 chunk size".to_string()));
            },
        };
        let chars = text::to_chars(line_text);
        let parts = text::split(chars.as_slice(), semicolon.as_slice());
        let ghost views = text::slice_views(parts@);
        proof {
            assert(views[0] == parts@[0]@);
        }
        let size_hex = text::trim(parts[0]);
        let size: usize = match text::parse_number(size_hex, 16, usize::MAX as u64) {
            Some(n) => n as usize,
            None => {
                let shown = text::from_chars(size_hex);
                return Err(ScanError::Http(text::prefixed("bad chunk size: ", shown.as_str())));
            },
        };
        if size == 0 {
            proof {
                assert(out@ + Seq::<u8>::empty() =~= out@);
            }
            return Ok(out);
        }
        if after.len() < size {
            return Err(ScanError::Http("truncated chunk body".to_string()));
        }
        let chunk = slice_subrange(after, 0, size);
        let tail = slice_subrange(after, size, after.len());
        let ghost before = out@;
        out.extend_from_slice(chunk);
        proof {
            assert(chunk@ =~= after@.take(size as int));
            assert(tail@ =~= after@.skip(size as int));
            assert(out@ =~= before + chunk@);
        }
        if tail.len() >= 2 {
            rest = slice_subrange(tail, 2, tail.len());
            proof {
                assert(rest@ =~= tail@.skip(2));
            }
        } else {
            rest = tail;
        }
        proof {
            match dechunked(rest@) {
                Ok(more) => {
                    assert(before + (chunk@ + more) =~= out@ + more);
                },
                Err(e) => {},
            }
        }
    }
}

/// The header fields among lines: of each line with a colon, what stands before
/// the first one and what stands after it, trimmed.
pub open spec fn fields_of(lines: Seq<Seq<char>>) -> Seq<(Seq<char>, Seq<char>)>
    decreases lines.len(),
{
    if lines.len() == 0 {
        seq![]
    } else {
        match text::around_first(lines.last(), ':') {
            Some((k, v)) => fields_of(lines.drop_last()).push((text::trimmed(k), text::trimmed(v))),
            None => fields_of(lines.drop_last()),
        }
    }
}

/// Whether a header field says that the body is sent in chunks.
pub open spec fn says_chunked(field: (Seq<char>, Seq<char>)) -> bool {
    let codings = text::pieces(field.1, seq![',']);
    &&& text::alike(field.0, "transfer-encoding"@)
    &&& exists|i: int|
        0 <= i < codings.len() && text::alike(#[trigger] text::trimmed(codings[i]), "chunked"@)
}

/// Whether any header field says that the body is sent in chunks.
pub open spec fn is_chunked(fields: Seq<(Seq<char>, Seq<char>)>) -> bool {
    exists|i: int| 0 <= i < fields.len() && says_chunked(#[trigger] fields[i])
}

/// The status code of a status line: its second word, where that is a number of
/// sixteen bits.
pub open spec fn status_of(line: Seq<char>) -> Option<nat> {
    let w = text::words(line);
    if w.len() < 2 {
        None
    } else {
        text::number(w[1], 10, 0xffff)
    }
}

/// The response that a header section and the octets after it make.
pub open spec fn response_of(head: Seq<char>, body: Seq<u8>) -> Result<ResponseView, ErrorView> {
    let lines = text::pieces(head, seq!['\r', '\n']);
    let fields = fields_of(lines.skip(1));
    match status_of(lines[0]) {
        None => Err(ErrorView::Http("bad status line: "@ + lines[0])),
        Some(status) => if is_chunked(fields) {
            match dechunked(body) {
                Ok(decoded) => Ok(ResponseView { status, headers: fields, body: decoded }),
                Err(e) => Err(e),
            }
        } else {
            Ok(ResponseView { status, headers: fields, body })
        },
    }
}

/// The response in what a server sent: its header section ends at the first
/// empty line.
pub open spec fn received(raw: Seq<u8>) -> Result<ResponseView, ErrorView> {
    match text::first_of(raw, head_end()) {
        None => Err(ErrorView::Http("response missing header terminator"@)),
        Some(i) => response_of(lossy_text(raw.take(i as int)), raw.skip(i as int + 4)),
    }
}

/// The value of the first field with the given name, in any case.
pub open spec fn field_value(fields: Seq<(Seq<char>, Seq<char>)>, name: Seq<char>) -> Option<
    Seq<char>,
>
    decreases fields.len(),
{
    if fields.len() == 0 {
        None
    } else if text::alike(fields[0].0, name) {
        Some(fields[0].1)
    } else {
        field_value(fields.skip(1), name)
    }
}

impl HttpResponse {
    /// The value of the first header field with the given name, in any case.
    pub fn header(&self, name: &str) -> (r: Option<&str>)
        ensures
            match r {
                Some(v) => field_value(self@.headers, name@) == Some(v@),
                None => field_value(self@.headers, name@) is None,
            },
    {
        let wanted = text::to_chars(name);
        let ghost fields = field_views(self.headers@);
        let mut i: usize = 0;
        proof {
            assert(fields.skip(0) =~= fields);
        }
        while i < self.headers.len()
            invariant
                0 <= i <= self.headers@.len(),
                wanted@ == name@,
                fields == field_views(self.headers@),
                field_value(fields, name@) == field_value(fields.skip(i as int), name@),
            decreases self.headers@.len() - i,
        {
            let key = text::to_chars(self.headers[i].0.as_str());
            proof {
                assert(fields.skip(i as int)[0] == fields[i as int]);
                assert(fields.skip(i as int).skip(1) =~= fields.skip(i + 1));
            }
            if text::is_alike(key.as_slice(), wanted.as_slice()) {
                return Some(self.headers[i].1.as_str());
            }
            i += 1;
        }
        None
    }
}

/// Whether a header field says that the body is sent in chunks.
fn field_says_chunked(name: &[char], value: &[char]) -> (r: bool)
    ensures
        r == says_chunked((name@, value@)),
{
    let wanted = text::to_chars("transfer-encoding");
    if !text::is_alike(name, wanted.as_slice()) {
        return false;
    }
    let coding = text::to_chars("chunked");
    let comma: [char; 1] = [','];
    proof {
        assert(comma@ =~= seq![',']);
    }
    let parts = text::split(value, comma.as_slice());
    let ghost codings = text::pieces(value@, seq![',']);
    let mut i: usize = 0;
    while i < parts.len()
        invariant
            0 <= i <= parts@.len(),
            coding@ == "chunked"@,
            codings == text::pieces(value@, seq![',']),
            codings == text::slice_views(parts@),
            text::alike(name@, "transfer-encoding"@),
            forall|j: int|
                0 <= j < i ==> !text::alike(#[trigger] text::trimmed(codings[j]), "chunked"@),
        decreases parts@.len() - i,
    {
        proof {
            assert(codings[i as int] == parts@[i as int]@);
        }
        let token = text::trim(parts[i]);
        if text::is_alike(token, coding.as_slice()) {
            proof {
                let field = (name@, value@);
                let c = text::pieces(field.1, seq![',']);
                assert(0 <= i < c.len());
                assert(text::alike(text::trimmed(c[i as int]), "chunked"@));
                assert(says_chunked(field));
            }
            return true;
        }
        i += 1;
    }
    false
}

/// Build a response from its header section, as text and without the empty line
/// that ends it, and the octets after that line.
pub fn parse_parts(head: &str, body: &[u8]) -> (r: Result<HttpResponse, ScanError>)
    ensures
        response_view(r) == response_of(head@, body@),
{
    let crlf: [char; 2] = ['\r', '\n'];
    proof {
        assert(crlf@ =~= seq!['\r', '\n']);
    }
    let chars = text::to_chars(head);
    let lines = text::split(chars.as_slice(), crlf.as_slice());
    let ghost all = text::pieces(head@, seq!['\r', '\n']);
    proof {
        assert(all[0] == lines@[0]@);
    }
    let words = text::split_words(lines[0]);
    let ghost seen = text::words(lines@[0]@);
    let mut code: Option<u64> = None;
    if words.len() >= 2 {
        proof {
            assert(seen[1] == words@[1]@);
        }
        code = text::parse_number(words[1], 10, 0xffff);
    }
    let status: u16 = match code {
        Some(n) => n as u16,
        None => {
            let shown = text::from_chars(lines[0]);
            return Err(ScanError::Http(text::prefixed("bad status line: ", shown.as_str())));
        },
    };
    let mut headers: Vec<(String, String)> = Vec::new();
    let mut chunked = false;
    let ghost rest = all.skip(1);
    let mut i: usize = 1;
    proof {
        assert(rest.take(0) =~= Seq::<Seq<char>>::empty());
        assert(field_views(headers@) =~= fields_of(rest.take(0)));
    }
    while i < lines.len()
        invariant
            1 <= i <= lines@.len(),
            all == text::slice_views(lines@),
            rest == all.skip(1),
            field_views(headers@) == fields_of(rest.take(i - 1)),
            chunked == is_chunked(field_views(headers@)),
        decreases lines@.len() - i,
    {
        let ghost before = field_views(headers@);
        proof {
            let t = rest.take(i as int);
            assert(t.drop_last() =~= rest.take(i - 1));
            assert(t.last() == lines@[i as int]@);
        }
        match text::split_once(lines[i], ':') {
            Some((k, v)) => {
                let name = text::trim(k);
                let value = text::trim(v);
                let says = field_says_chunked(name, value);
                headers.push((text::from_chars(name), text::from_chars(value)));
                proof {
                    let now = field_views(headers@);
                    assert(now =~= before.push((name@, value@)));
                    if chunked {
                        let j = choose|j: int|
                            0 <= j < before.len() && says_chunked(#[trigger] before[j]);
                        assert(now[j] == before[j]);
                    }
                    if says {
                        assert(says_chunked(now[now.len() - 1]));
                    }
                    if is_chunked(now) && !says {
                        let j = choose|j: int|
                            0 <= j < now.len() && says_chunked(#[trigger] now[j]);
                        assert(before[j] == now[j]);
                    }
                }
                if says {
                    chunked = true;
                }
            },
            None => {},
        }
        i += 1;
    }
    proof {
        assert(rest.take(rest.len() as int) =~= rest);
    }
    if chunked {
        match decode_chunked(body) {
            Ok(decoded) => Ok(HttpResponse { status, headers, body: decoded }),
            Err(e) => Err(e),
        }
    } else {
        let mut plain: Vec<u8> = Vec::new();
        plain.extend_from_slice(body);
        proof {
            assert(plain@ =~= body@);
        }
        Ok(HttpResponse { status, headers, body: plain })
    }
}

/// Parse everything a server sent into a response.
pub fn parse_response(raw: &[u8]) -> (r: Result<HttpResponse, ScanError>)
    ensures
        response_view(r) == received(raw@),
        match text::first_of(raw@, head_end()) {
            Some(i) => utf8::valid_utf8(raw@.take(i as int)) ==> response_view(r) == response_of(
                utf8::decode_utf8(raw@.take(i as int)),
                raw@.skip(i as int + 4),
            ),
            None => true,
        },
{
    let terminator: [u8; 4] = [13, 10, 13, 10];
    proof {
        assert(terminator@ =~= head_end());
    }
    match find_subsequence(raw, terminator.as_slice()) {
        None => Err(ScanError::Http("response missing header terminator".to_string())),
        Some(i) => {
            let end: usize = raw.len();
            let head = slice_subrange(raw, 0, i);
            let body = slice_subrange(raw, i + 4, end);
            proof {
                assert(head@ =~= raw@.take(i as int));
                assert(body@ =~= raw@.skip(i as int + 4));
            }
            let decoded = lossy(head);
            parse_parts(decoded.as_str(), body)
        },
    }
}

/// A chunk as it is sent: the text of its size, any extension, and its data.
pub struct SentChunk {
    pub size: Seq<char>,
    pub extension: Seq<char>,
    pub data: Seq<u8>,
}

/// Whether `size` spells `n` in hexadecimal digits, in either case and with any
/// zeros in front.
pub open spec fn spells_size(size: Seq<char>, n: nat) -> bool {
    &&& size.len() > 0
    &&& text::all_digits(size, 16)
    &&& text::digits_value(size, 16) == n
}

/// Whether `extension` can follow a size: nothing, or a semicolon and any text
/// within the line.
pub open spec fn follows_size(extension: Seq<char>) -> bool {
    &&& extension.len() > 0 ==> extension[0] == ';'
    &&& !extension.contains('\n')
}

/// Whether a chunk is sent as it should be: with data, of the size that it spells.
pub open spec fn well_sent(chunk: SentChunk) -> bool {
    &&& 0 < chunk.data.len() <= usize::MAX
    &&& spells_size(chunk.size, chunk.data.len())
    &&& follows_size(chunk.extension)
}

/// A chunk's octets: the line with its size, its data, and the ends of both.
pub open spec fn chunk_frame(chunk: SentChunk) -> Seq<u8> {
    utf8::encode_utf8(chunk.size + chunk.extension) + line_end() + chunk.data + line_end()
}

/// The octets of chunks, of the line of the chunk of size zero, and of a trailer.
pub open spec fn chunk_frames(
    chunks: Seq<SentChunk>,
    zero: Seq<char>,
    extension: Seq<char>,
    trailer: Seq<u8>,
) -> Seq<u8>
    decreases chunks.len(),
{
    if chunks.len() == 0 {
        utf8::encode_utf8(zero + extension) + line_end() + trailer
    } else {
        chunk_frame(chunks[0]) + chunk_frames(chunks.skip(1), zero, extension, trailer)
    }
}

/// The data of chunks, one after the other.
pub open spec fn chunk_data(chunks: Seq<SentChunk>) -> Seq<u8>
    decreases chunks.len(),
{
    if chunks.len() == 0 {
        seq![]
    } else {
        chunks[0].data + chunk_data(chunks.skip(1))
    }
}

/// The encoding of a character holds a line feed only where the character is one.
proof fn lemma_char_line_feed(ch: char)
    requires
        ch != '\n',
    ensures
        forall|i: int|
            0 <= i < utf8::encode_scalar(ch as u32).len() ==> #[trigger] utf8::encode_scalar(
                ch as u32,
            )[i] != 10,
{
    let c = ch as u32;
    assert(c < 0x80 && c != 10 ==> (c & 0x7F) as u8 != 10) by (bit_vector);
    assert((0xC0u8 | ((c >> 6) & 0x1F) as u8) != 10) by (bit_vector);
    assert((0xE0u8 | ((c >> 12) & 0x0F) as u8) != 10) by (bit_vector);
    assert((0xF0u8 | ((c >> 18) & 0x7) as u8) != 10) by (bit_vector);
    assert((0x80u8 | (c & 0x3F) as u8) != 10) by (bit_vector);
    assert((0x80u8 | ((c >> 6) & 0x3F) as u8) != 10) by (bit_vector);
    assert((0x80u8 | ((c >> 12) & 0x3F) as u8) != 10) by (bit_vector);
}

/// The encoding of a text holds a line feed only where the text does.
proof fn lemma_no_line_feed(s: Seq<char>)
    requires
        !s.contains('\n'),
    ensures
        forall|i: int|
            0 <= i < utf8::encode_utf8(s).len() ==> #[trigger] utf8::encode_utf8(s)[i] != 10,
    decreases s.len(),
{
    if s.len() > 0 {
        let rest = s.drop_first();
        let first = utf8::encode_scalar(s[0] as u32);
        assert(s.contains(s[0]));
        assert forall|i: int| 0 <= i < rest.len() implies rest[i] != '\n' by {
            assert(s.contains(s[i + 1]));
        }
        lemma_char_line_feed(s[0]);
        lemma_no_line_feed(rest);
        assert forall|i: int| 0 <= i < utf8::encode_utf8(s).len() implies
            #[trigger] utf8::encode_utf8(s)[i] != 10 by {
            if i < first.len() {
                assert(utf8::encode_utf8(s)[i] == first[i]);
            } else {
                assert(utf8::encode_utf8(s)[i] == utf8::encode_utf8(rest)[i - first.len()]);
            }
        }
    }
}

/// The line of a chunk is found, decoded and read as its size.
proof fn lemma_size_line(size: Seq<char>, extension: Seq<char>, n: nat, rest: Seq<u8>)
    requires
        spells_size(size, n),
        follows_size(extension),
        n <= usize::MAX,
    ensures
        ({
            let line = utf8::encode_utf8(size + extension);
            &&& utf8::valid_utf8(line)
            &&& utf8::decode_utf8(line) == size + extension
            &&& text::first_of(line + line_end() + rest, line_end()) == Some(line.len())
            &&& text::number(chunk_size_text(size + extension), 16, usize::MAX as nat) == Some(n)
        }),
{
    let shown = size + extension;
    let line = utf8::encode_utf8(shown);
    let data = line + line_end() + rest;
    utf8::encode_utf8_valid_utf8(shown);
    utf8::encode_utf8_decode_utf8(shown);
    assert forall|i: int| 0 <= i < shown.len() implies shown[i] != '\n' by {
        if i < size.len() {
            assert(text::digit_value(size[i]) < 16);
        } else {
            assert(extension.contains(extension[i - size.len()]));
        }
    }
    lemma_no_line_feed(shown);
    assert(text::occurs_at(data, line_end(), line.len() as int)) by {
        assert(data.subrange(line.len() as int, line.len() as int + 2) =~= line_end());
    }
    assert forall|j: int| 0 <= j < line.len() implies !text::occurs_at(data, line_end(), j) by {
        if text::occurs_at(data, line_end(), j) {
            assert(data.subrange(j, j + 2)[1] == data[j + 1]);
            if j + 1 < line.len() {
                assert(data[j + 1] == line[j + 1]);
            }
        }
    }
    text::lemma_first_is(data, line_end(), line.len());
    assert(!size.contains(';')) by {
        assert forall|i: int| 0 <= i < size.len() implies size[i] != ';' by {
            assert(text::digit_value(size[i]) < 16);
        }
    }
    if extension.len() == 0 {
        assert(shown =~= size);
        text::lemma_no_char(size, ';');
    } else {
        assert(shown =~= size + seq![';'] + extension.skip(1));
        text::lemma_split_off(size, ';', extension.skip(1));
    }
    assert(text::pieces(shown, seq![';'])[0] == size);
    assert(text::digit_value(size[0]) < 16);
    assert(text::digit_value(size[size.len() - 1]) < 16);
    text::lemma_trimmed_already(size);
}

/// Decoding gives back what was sent in chunks: of any chunks but empty ones, the
/// data of all, in order, whether their sizes are in upper or lower case, whatever
/// extensions the lines carry and whatever trailer follows.
pub proof fn law_chunks_read_back(
    chunks: Seq<SentChunk>,
    zero: Seq<char>,
    extension: Seq<char>,
    trailer: Seq<u8>,
)
    requires
        forall|i: int| 0 <= i < chunks.len() ==> well_sent(#[trigger] chunks[i]),
        spells_size(zero, 0),
        follows_size(extension),
    ensures
        dechunked(chunk_frames(chunks, zero, extension, trailer)) == Ok::<Seq<u8>, ErrorView>(
            chunk_data(chunks),
        ),
    decreases chunks.len(),
{
    let data = chunk_frames(chunks, zero, extension, trailer);
    if chunks.len() == 0 {
        lemma_size_line(zero, extension, 0, trailer);
        let line = utf8::encode_utf8(zero + extension);
        assert(data.take(line.len() as int) =~= line);
    } else {
        let chunk = chunks[0];
        let more = chunk_frames(chunks.skip(1), zero, extension, trailer);
        let line = utf8::encode_utf8(chunk.size + chunk.extension);
        let n = chunk.data.len();
        let rest = chunk.data + line_end() + more;
        assert(well_sent(chunks[0]));
        law_chunks_read_back(chunks.skip(1), zero, extension, trailer);
        lemma_size_line(chunk.size, chunk.extension, n, rest);
        assert(data =~= line + line_end() + rest);
        assert(data.take(line.len() as int) =~= line);
        assert(data.skip(line.len() as int + 2) =~= rest);
        assert(rest.take(n as int) =~= chunk.data);
        assert(after_chunk(rest.skip(n as int)) =~= more);
    }
}

/// The status of a status line is read as it was written: after any version, and
/// whatever reason follows.
pub proof fn law_status_reads_back(version: Seq<char>, status: nat, reason: Seq<char>)
    requires
        version.len() > 0,
        forall|i: int| 0 <= i < version.len() ==> !text::white(#[trigger] version[i]),
        status <= 0xffff,
    ensures
        status_of(version + seq![' '] + text::decimal(status) + seq![' '] + reason) == Some(status),
{
    let digits = text::decimal(status);
    text::lemma_spelled(status, 10);
    text::law_spelled_is_read(status, 10, 0xffff);
    assert forall|i: int| 0 <= i < digits.len() implies !text::white(#[trigger] digits[i]) by {
        assert(text::digit_value(digits[i]) < 10);
    }
    let after = seq![' '] + reason;
    let second = digits + after;
    let line = version + seq![' '] + digits + seq![' '] + reason;
    assert(line =~= version + (seq![' '] + second));
    text::lemma_first_word(version, seq![' '] + second);
    text::lemma_words_skip(' ', second);
    text::lemma_first_word(digits, after);
    assert(text::words(line)[1] == digits);
}

/// Header fields are read as they were written: any trimmed name without a colon,
/// and any trimmed value.
pub proof fn law_fields_read_back(fields: Seq<(Seq<char>, Seq<char>)>)
    requires
        forall|i: int|
            0 <= i < fields.len() ==> {
                &&& !(#[trigger] fields[i]).0.contains(':')
                &&& text::trimmed(fields[i].0) == fields[i].0
                &&& text::trimmed(fields[i].1) == fields[i].1
            },
    ensures
        fields_of(Seq::new(fields.len(), |i: int| fields[i].0 + ": "@ + fields[i].1)) == fields,
    decreases fields.len(),
{
    let lines = Seq::new(fields.len(), |i: int| fields[i].0 + ": "@ + fields[i].1);
    if fields.len() > 0 {
        let fewer = fields.drop_last();
        let (name, value) = fields.last();
        assert(fields[fields.len() - 1] == (name, value));
        assert forall|i: int| 0 <= i < fewer.len() implies {
            &&& !(#[trigger] fewer[i]).0.contains(':')
            &&& text::trimmed(fewer[i].0) == fewer[i].0
            &&& text::trimmed(fewer[i].1) == fewer[i].1
        } by {
            assert(fewer[i] == fields[i]);
        }
        law_fields_read_back(fewer);
        assert(lines.drop_last() =~= Seq::new(
            fewer.len(),
            |i: int| fewer[i].0 + ": "@ + fewer[i].1,
        ));
        let line = name + ": "@ + value;
        let after = seq![' '] + value;
        reveal_strlit(": ");
        assert(line =~= name + seq![':'] + after);
        text::lemma_first_char(name, ':', after);
        assert(line.take(name.len() as int) =~= name);
        assert(line.skip(name.len() as int + 1) =~= after);
        assert(after.skip(1) =~= value);
        assert(fields =~= fewer.push((name, value)));
    }
}

/// The header section ends at the first empty line: whatever the body holds,
/// empty lines too, it starts right after.
pub proof fn law_head_ends_at_first_empty_line(head: Seq<u8>, body: Seq<u8>)
    requires
        forall|j: int|
            0 <= j < head.len() ==> !text::occurs_at(head + head_end(), head_end(), j),
    ensures
        received(head + head_end() + body) == response_of(lossy_text(head), body),
{
    let raw = head + head_end() + body;
    assert(text::occurs_at(raw, head_end(), head.len() as int)) by {
        assert(raw.subrange(head.len() as int, head.len() as int + 4) =~= head_end());
    }
    assert forall|j: int| 0 <= j < head.len() implies !text::occurs_at(raw, head_end(), j) by {
        assert(raw.subrange(j, j + 4) =~= (head + head_end()).subrange(j, j + 4));
        assert(!text::occurs_at(head + head_end(), head_end(), j));
    }
    text::lemma_first_is(raw, head_end(), head.len());
    assert(raw.take(head.len() as int) =~= head);
    assert(raw.skip(head.len() as int + 4) =~= body);
}

/// A response that is not sent in chunks keeps its body as it came.
pub proof fn law_plain_body_is_kept(head: Seq<char>, body: Seq<u8>)
    requires
        !is_chunked(fields_of(text::pieces(head, seq!['\r', '\n']).skip(1))),
        status_of(text::pieces(head, seq!['\r', '\n'])[0]) is Some,
    ensures
        response_of(head, body) matches Ok(r) && r.body == body,
{
}

/// A header field is found under its name in any case.
pub proof fn law_field_names_ignore_case(
    fields: Seq<(Seq<char>, Seq<char>)>,
    a: Seq<char>,
    b: Seq<char>,
)
    requires
        text::alike(a, b),
    ensures
        field_value(fields, a) == field_value(fields, b),
    decreases fields.len(),
{
    if fields.len() > 0 {
        let name = fields[0].0;
        if text::alike(name, a) {
            assert forall|i: int| 0 <= i < name.len() implies text::lower(#[trigger] name[i])
                == text::lower(b[i]) by {
                assert(text::lower(a[i]) == text::lower(b[i]));
            }
        }
        if text::alike(name, b) {
            assert forall|i: int| 0 <= i < name.len() implies text::lower(#[trigger] name[i])
                == text::lower(a[i]) by {
                assert(text::lower(a[i]) == text::lower(b[i]));
            }
        }
        law_field_names_ignore_case(fields.skip(1), a, b);
    }
}

/// A response that says so, and is sent in chunks, has the chunks' data as its
/// body.
pub proof fn law_chunked_body_is_decoded(
    head: Seq<char>,
    chunks: Seq<SentChunk>,
    zero: Seq<char>,
    extension: Seq<char>,
    trailer: Seq<u8>,
)
    requires
        is_chunked(fields_of(text::pieces(head, seq!['\r', '\n']).skip(1))),
        status_of(text::pieces(head, seq!['\r', '\n'])[0]) is Some,
        forall|i: int| 0 <= i < chunks.len() ==> well_sent(#[trigger] chunks[i]),
        spells_size(zero, 0),
        follows_size(extension),
    ensures
        response_of(head, chunk_frames(chunks, zero, extension, trailer)) matches Ok(r) && r.body
            == chunk_data(chunks),
{
    law_chunks_read_back(chunks, zero, extension, trailer);
}

/// An empty line after another line, in characters.
pub open spec fn empty_line() -> Seq<char> {
    seq!['\r', '\n', '\r', '\n']
}

/// Whether the only empty line in `s` is at its end.
pub open spec fn ends_at_first_empty_line(s: Seq<char>) -> bool {
    &&& s.len() >= 4
    &&& text::first_of(s, empty_line()) == Some((s.len() - 4) as nat)
}

/// One more line in front, which neither is empty nor breaks, changes nothing.
proof fn lemma_line_in_front(line: Seq<char>, rest: Seq<char>)
    requires
        line.len() > 0,
        !line.contains('\r'),
        ends_at_first_empty_line(rest),
        rest[0] != '\r',
    ensures
        ends_at_first_empty_line(line + "\r\n"@ + rest),
        (line + "\r\n"@ + rest)[0] != '\r',
{
    reveal_strlit("\r\n");
    let s = line + "\r\n"@ + rest;
    let at = line.len() + 2;
    let k = (rest.len() - 4) as nat;
    text::law_first_from(rest, empty_line(), 0);
    assert(s.subrange((at + k) as int, (at + k) as int + 4) =~= rest.subrange(
        k as int,
        k as int + 4,
    ));
    assert forall|j: int| 0 <= j < at + k implies !text::occurs_at(s, empty_line(), j) by {
        if text::occurs_at(s, empty_line(), j) {
            let found = s.subrange(j, j + 4);
            assert(found[0] == s[j]);
            assert(found[2] == s[j + 2]);
            if j < line.len() {
                assert(line.contains(line[j]));
            } else if j >= at {
                let i = j - at;
                assert(rest.subrange(i, i + 4) =~= found);
                assert(text::occurs_at(rest, empty_line(), i));
            }
        }
    }
    text::lemma_first_is(s, empty_line(), at + k);
    assert(line.contains(line[0]));
}

/// A line that neither is empty nor breaks, then an empty line.
proof fn lemma_only_line(line: Seq<char>)
    requires
        line.len() > 0,
        !line.contains('\r'),
    ensures
        ends_at_first_empty_line(line + "\r\n"@ + "\r\n"@),
        (line + "\r\n"@ + "\r\n"@)[0] != '\r',
{
    reveal_strlit("\r\n");
    let s = line + "\r\n"@ + "\r\n"@;
    assert(s.subrange(line.len() as int, line.len() as int + 4) =~= empty_line());
    assert forall|j: int| 0 <= j < line.len() implies !text::occurs_at(s, empty_line(), j) by {
        if text::occurs_at(s, empty_line(), j) {
            assert(s.subrange(j, j + 4)[0] == s[j]);
            assert(line.contains(line[j]));
        }
    }
    text::lemma_first_is(s, empty_line(), line.len());
    assert(line.contains(line[0]));
}

/// The lines of header fields can be taken from the front.
proof fn lemma_field_lines_front(fields: Seq<(Seq<char>, Seq<char>)>)
    requires
        fields.len() > 0,
    ensures
        field_lines(fields) == fields[0].0 + ": "@ + fields[0].1 + "\r\n"@ + field_lines(
            fields.skip(1),
        ),
    decreases fields.len(),
{
    let tail = fields.skip(1);
    if fields.len() == 1 {
        assert(field_lines(fields.drop_last()) =~= seq![]);
        assert(field_lines(tail) =~= seq![]);
        assert(field_lines(fields) =~= fields[0].0 + ": "@ + fields[0].1 + "\r\n"@);
    } else {
        lemma_field_lines_front(fields.drop_last());
        assert(fields.drop_last().skip(1) =~= tail.drop_last());
        assert(tail.last() == fields.last());
        assert(field_lines(fields) =~= fields[0].0 + ": "@ + fields[0].1 + "\r\n"@ + field_lines(
            tail,
        ));
    }
}

/// Whether header fields are lines of their own: named, and without breaks.
pub open spec fn plain_fields(fields: Seq<(Seq<char>, Seq<char>)>) -> bool {
    forall|i: int|
        0 <= i < fields.len() ==> {
            &&& (#[trigger] fields[i]).0.len() > 0
            &&& !fields[i].0.contains('\r')
            &&& !fields[i].1.contains('\r')
        }
}

proof fn lemma_after_line(
    line: Seq<char>,
    fields: Seq<(Seq<char>, Seq<char>)>,
    body_len: Option<nat>,
)
    requires
        line.len() > 0,
        !line.contains('\r'),
        plain_fields(fields),
    ensures
        ends_at_first_empty_line(
            line + "\r\n"@ + (field_lines(fields) + length_line(body_len) + "\r\n"@),
        ),
        (line + "\r\n"@ + (field_lines(fields) + length_line(body_len) + "\r\n"@))[0] != '\r',
    decreases fields.len(),
{
    let rest = field_lines(fields) + length_line(body_len) + "\r\n"@;
    if fields.len() > 0 {
        let field = fields[0].0 + ": "@ + fields[0].1;
        let tail = fields.skip(1);
        reveal_strlit(": ");
        assert(!field.contains('\r')) by {
            assert forall|i: int| 0 <= i < field.len() implies field[i] != '\r' by {
                let name = fields[0].0;
                let value = fields[0].1;
                if i < name.len() {
                    assert(name.contains(name[i]));
                } else if i >= name.len() + 2 {
                    assert(value.contains(value[i - name.len() - 2]));
                }
            }
        }
        assert forall|i: int| 0 <= i < tail.len() implies {
            &&& (#[trigger] tail[i]).0.len() > 0
            &&& !tail[i].0.contains('\r')
            &&& !tail[i].1.contains('\r')
        } by {
            assert(tail[i] == fields[i + 1]);
        }
        lemma_after_line(field, tail, body_len);
        lemma_field_lines_front(fields);
        assert(rest =~= field + "\r\n"@ + (field_lines(tail) + length_line(body_len) + "\r\n"@));
        lemma_line_in_front(line, rest);
    } else {
        match body_len {
            Some(n) => {
                let announced = "Content-Length: "@ + text::decimal(n);
                lemma_length_line(n);
                assert(rest =~= announced + "\r\n"@ + "\r\n"@);
                lemma_only_line(announced);
                lemma_line_in_front(line, rest);
            },
            None => {
                assert(rest =~= "\r\n"@);
                lemma_only_line(line);
            },
        }
    }
}

proof fn lemma_length_line(n: nat)
    ensures
        !("Content-Length: "@ + text::decimal(n)).contains('\r'),
        ("Content-Length: "@ + text::decimal(n)).len() > 0,
{
    let digits = text::decimal(n);
    let line = "Content-Length: "@ + digits;
    reveal_strlit("Content-Length: ");
    text::lemma_spelled(n, 10);
    assert forall|i: int| 0 <= i < line.len() implies line[i] != '\r' by {
        if i >= 16 {
            assert(line[i] == digits[i - 16]);
            assert(text::digit_value(digits[i - 16]) < 10);
        }
    }
}

/// A request's header section ends at its only empty line, so that the body is
/// what follows it: for any method, host, path and fields without line breaks.
pub proof fn law_request_head_ends_once(
    method: Seq<char>,
    host: Seq<char>,
    path: Seq<char>,
    fields: Seq<(Seq<char>, Seq<char>)>,
    body_len: Option<nat>,
)
    requires
        !method.contains('\r'),
        !host.contains('\r'),
        !path.contains('\r'),
        plain_fields(fields),
    ensures
        ends_at_first_empty_line(request_head(method, host, path, fields, body_len)),
{
    let start = method + " "@ + path + " HTTP/1.1"@;
    let named = "Host: "@ + host;
    let agent = "User-Agent: russl/0.1"@;
    let close = "Connection: close"@;
    reveal_strlit(" ");
    reveal_strlit(" HTTP/1.1");
    reveal_strlit("Host: ");
    reveal_strlit("User-Agent: russl/0.1");
    reveal_strlit("Connection: close");
    reveal_strlit("\r\n");
    reveal_strlit(" HTTP/1.1\r\nHost: ");
    reveal_strlit("\r\nUser-Agent: russl/0.1\r\nConnection: close\r\n");
    assert(" HTTP/1.1\r\nHost: "@ =~= " HTTP/1.1"@ + "\r\n"@ + "Host: "@);
    assert("\r\nUser-Agent: russl/0.1\r\nConnection: close\r\n"@ =~= "\r\n"@ + agent + "\r\n"@
        + close + "\r\n"@);
    assert forall|i: int| 0 <= i < start.len() implies start[i] != '\r' by {
        let m = method.len() as int;
        let p = path.len() as int;
        if i < m {
            assert(method.contains(method[i]));
        } else if m < i <= m + p {
            assert(path.contains(path[i - m - 1]));
        }
    }
    assert forall|i: int| 0 <= i < named.len() implies named[i] != '\r' by {
        if i >= 6 {
            assert(host.contains(host[i - 6]));
        }
    }
    let tail = field_lines(fields) + length_line(body_len) + "\r\n"@;
    let s1 = close + "\r\n"@ + tail;
    let s2 = agent + "\r\n"@ + s1;
    let s3 = named + "\r\n"@ + s2;
    lemma_after_line(close, fields, body_len);
    lemma_line_in_front(agent, s1);
    lemma_line_in_front(named, s2);
    lemma_line_in_front(start, s3);
    assert(request_head(method, host, path, fields, body_len) =~= start + "\r\n"@ + s3);
}

/// A request is written line by line: without extra fields it is its request line and
/// three fields; one more field is one more line before the empty one; and a body is
/// announced as a last field would be.
pub proof fn law_request_is_written_by_lines(
    method: Seq<char>,
    host: Seq<char>,
    path: Seq<char>,
    fields: Seq<(Seq<char>, Seq<char>)>,
    name: Seq<char>,
    value: Seq<char>,
    n: nat,
)
    ensures
        request_head(method, host, path, seq![], None) == method + " "@ + path
            + " HTTP/1.1\r\nHost: "@ + host
            + "\r\nUser-Agent: russl/0.1\r\nConnection: close\r\n\r\n"@,
        request_head(method, host, path, fields.push((name, value)), None) == request_head(
            method,
            host,
            path,
            fields,
            None,
        ).drop_last().drop_last() + name + ": "@ + value + "\r\n\r\n"@,
        request_head(method, host, path, fields, Some(n)) == request_head(
            method,
            host,
            path,
            fields.push(("Content-Length"@, text::decimal(n))),
            None,
        ),
{
    reveal_strlit("\r\nUser-Agent: russl/0.1\r\nConnection: close\r\n\r\n");
    reveal_strlit("\r\nUser-Agent: russl/0.1\r\nConnection: close\r\n");
    reveal_strlit("\r\n\r\n");
    reveal_strlit("\r\n");
    reveal_strlit("Content-Length: ");
    reveal_strlit("Content-Length");
    reveal_strlit(": ");
    let more = fields.push((name, value));
    assert(more.drop_last() =~= fields);
    let counted = fields.push(("Content-Length"@, text::decimal(n)));
    assert(counted.drop_last() =~= fields);
    assert("Content-Length: "@ =~= "Content-Length"@ + ": "@);
    assert("\r\n\r\n"@ =~= "\r\n"@ + "\r\n"@);
    assert("\r\nUser-Agent: russl/0.1\r\nConnection: close\r\n\r\n"@
        =~= "\r\nUser-Agent: russl/0.1\r\nConnection: close\r\n"@ + "\r\n"@);
    let head = request_head(method, host, path, fields, None);
    let start = method + " "@ + path + " HTTP/1.1\r\nHost: "@ + host
        + "\r\nUser-Agent: russl/0.1\r\nConnection: close\r\n"@ + field_lines(fields);
    assert(head =~= start + "\r\n"@);
    assert(head.drop_last().drop_last() =~= start);
    assert(request_head(method, host, path, more, None) =~= start + name + ": "@ + value
        + "\r\n\r\n"@);
    assert(request_head(method, host, path, fields, Some(n)) =~= request_head(
        method,
        host,
        path,
        counted,
        None,
    ));
    assert(request_head(method, host, path, seq![], None) =~= method + " "@ + path
        + " HTTP/1.1\r\nHost: "@ + host
        + "\r\nUser-Agent: russl/0.1\r\nConnection: close\r\n\r\n"@);
}

/// The line that a chunk starts with, followed by its end: it is the first line.
proof fn lemma_first_line(line: Seq<u8>, rest: Seq<u8>)
    requires
        !text::holds(line, seq![13u8, 10u8]),
    ensures
        text::first_of(line + seq![13u8, 10u8] + rest, line_end()) == Some(line.len()),
        (line + seq![13u8, 10u8] + rest).take(line.len() as int) == line,
        (line + seq![13u8, 10u8] + rest).skip(line.len() as int + 2) == rest,
{
    let data = line + seq![13u8, 10u8] + rest;
    assert(text::occurs_at(data, line_end(), line.len() as int)) by {
        assert(data.subrange(line.len() as int, line.len() as int + 2) =~= line_end());
    }
    assert forall|j: int| 0 <= j < line.len() implies !text::occurs_at(data, line_end(), j) by {
        if text::occurs_at(data, line_end(), j) {
            assert(data.subrange(j, j + 2)[1] == data[j + 1]);
            if j + 1 < line.len() {
                assert(data.subrange(j, j + 2) =~= line.subrange(j, j + 2));
                assert(text::occurs_at(line, seq![13u8, 10u8], j));
            }
        }
    }
    text::lemma_first_is(data, line_end(), line.len());
    assert(data.take(line.len() as int) =~= line);
    assert(data.skip(line.len() as int + 2) =~= rest);
}

/// A chunk in front puts its data in front: its line gives its length in hexadecimal,
/// before any semicolon, and two octets after the data are passed over. What goes
/// wrong further on is what goes wrong.
pub proof fn law_chunk_in_front(line: Seq<u8>, data: Seq<u8>, gap: Seq<u8>, rest: Seq<u8>)
    requires
        !text::holds(line, seq![13u8, 10u8]),
        utf8::valid_utf8(line),
        text::number(
            text::trimmed(text::pieces(utf8::decode_utf8(line), seq![';'])[0]),
            16,
            usize::MAX as nat,
        ) == Some(data.len()),
        data.len() > 0,
        gap.len() == 2,
    ensures
        dechunked(line + seq![13u8, 10u8] + data + gap + rest) == (match dechunked(rest) {
            Ok(more) => Ok::<Seq<u8>, ErrorView>(data + more),
            Err(e) => Err(e),
        }),
{
    let after = data + gap + rest;
    let all = line + seq![13u8, 10u8] + data + gap + rest;
    assert(all =~= line + seq![13u8, 10u8] + after);
    lemma_first_line(line, after);
    assert(after.take(data.len() as int) =~= data);
    assert(after_chunk(after.skip(data.len() as int)) =~= rest);
}

/// A chunk of size zero ends the body, whatever follows it.
pub proof fn law_zero_ends_the_body(line: Seq<u8>, rest: Seq<u8>)
    requires
        !text::holds(line, seq![13u8, 10u8]),
        utf8::valid_utf8(line),
        text::number(
            text::trimmed(text::pieces(utf8::decode_utf8(line), seq![';'])[0]),
            16,
            usize::MAX as nat,
        ) == Some(0nat),
    ensures
        dechunked(line + seq![13u8, 10u8] + rest) == Ok::<Seq<u8>, ErrorView>(seq![]),
{
    lemma_first_line(line, rest);
}

/// What is no chunk is refused: octets without an end of line, a line that is no
/// UTF-8, one that gives no size, and a chunk that is cut off.
pub proof fn law_broken_chunks_are_refused(line: Seq<u8>, rest: Seq<u8>)
    requires
        !text::holds(line, seq![13u8, 10u8]),
    ensures
        dechunked(line) == Err::<Seq<u8>, ErrorView>(ErrorView::Http("malformed chunk header"@)),
        !utf8::valid_utf8(line) ==> dechunked(line + seq![13u8, 10u8] + rest) == Err::<
            Seq<u8>,
            ErrorView,
        >(ErrorView::Http("non-utf8 chunk size"@)),
        utf8::valid_utf8(line) ==> {
            let size = text::trimmed(text::pieces(utf8::decode_utf8(line), seq![';'])[0]);
            let n = text::number(size, 16, usize::MAX as nat);
            let r = dechunked(line + seq![13u8, 10u8] + rest);
            &&& n is None ==> r == Err::<Seq<u8>, ErrorView>(
                ErrorView::Http("bad chunk size: "@ + size),
            )
            &&& n is Some && n->0 > rest.len() ==> r == Err::<Seq<u8>, ErrorView>(
                ErrorView::Http("truncated chunk body"@),
            )
            &&& n is Some && 0 < n->0 <= rest.len() < n->0 + 2 ==> r == Err::<Seq<u8>, ErrorView>(
                ErrorView::Http("malformed chunk header"@),
            )
        },
{
    lemma_first_line(line, rest);
    text::law_first_from(line, line_end(), 0);
    if text::first_of(line, line_end()) is Some {
        assert(text::occurs_at(line, seq![13u8, 10u8], text::first_of(line, line_end())->0 as int));
    }
    if utf8::valid_utf8(line) {
        let size = text::trimmed(text::pieces(utf8::decode_utf8(line), seq![';'])[0]);
        match text::number(size, 16, usize::MAX as nat) {
            Some(n) => {
                if 0 < n <= rest.len() < n + 2 {
                    let tail = rest.skip(n as int);
                    assert(after_chunk(tail) == tail);
                    text::law_first_from(tail, line_end(), 0);
                    assert(text::first_of(tail, line_end()) is None);
                    assert(dechunked(tail) == Err::<Seq<u8>, ErrorView>(
                        ErrorView::Http("malformed chunk header"@),
                    ));
                }
            },
            None => {},
        }
    }
}

/// One more line is one more field where it has a colon, and nothing where it has
/// none: the name is what stands before the first colon, trimmed, and the value all
/// that stands after it, trimmed.
pub proof fn law_one_more_line(lines: Seq<Seq<char>>, name: Seq<char>, value: Seq<char>)
    requires
        !name.contains(':'),
    ensures
        fields_of(seq![]) == Seq::<(Seq<char>, Seq<char>)>::empty(),
        fields_of(lines.push(name)) == fields_of(lines),
        fields_of(lines.push(name + ":"@ + value)) == fields_of(lines).push(
            (text::trimmed(name), text::trimmed(value)),
        ),
{
    reveal_strlit(":");
    assert(":"@ =~= seq![':']);
    text::law_around_first(name, ':', value);
    assert(lines.push(name).drop_last() =~= lines);
    assert(lines.push(name + ":"@ + value).drop_last() =~= lines);
}

/// The status is the second word of the status line, where that is a number of sixteen
/// bits; a line with fewer words has none.
pub proof fn law_status_is_the_second_word(
    first: Seq<char>,
    space: Seq<char>,
    word: Seq<char>,
    rest: Seq<char>,
)
    requires
        first.len() > 0,
        forall|i: int| 0 <= i < first.len() ==> !text::white(#[trigger] first[i]),
        space.len() > 0,
        text::all_white(space),
        word.len() > 0,
        forall|i: int| 0 <= i < word.len() ==> !text::white(#[trigger] word[i]),
        rest.len() > 0 ==> text::white(rest[0]),
    ensures
        status_of(first + space + word + rest) == text::number(word, 10, 65535),
        status_of(first + space) is None,
        status_of(space) is None,
{
    let line = first + space + word + rest;
    let none = Seq::<char>::empty();
    assert(text::white(space[0]));
    text::law_words(space, word, rest);
    text::law_words(none, first, space + word + rest);
    assert(none + first + (space + word + rest) =~= line);
    text::law_words(none, first, space);
    assert(none + first + space =~= first + space);
    assert(text::words(line)[1] == word);
}

/// A response has the status of its first line, the fields of its others, and its
/// body as it came, or put together where the fields say that it comes in chunks. A
/// first line without a status is refused as it stands.
pub proof fn law_response_is_of_its_lines(lines: Seq<Seq<char>>, head: Seq<char>, body: Seq<u8>)
    requires
        lines == text::pieces(head, "\r\n"@),
    ensures
        ({
            let r = response_of(head, body);
            let fields = fields_of(lines.skip(1));
            match status_of(lines[0]) {
                None => r == Err::<ResponseView, ErrorView>(
                    ErrorView::Http("bad status line: "@ + lines[0]),
                ),
                Some(status) => {
                    &&& !is_chunked(fields) ==> r == Ok::<ResponseView, ErrorView>(
                        ResponseView { status, headers: fields, body },
                    )
                    &&& is_chunked(fields) && dechunked(body) is Ok ==> r == Ok::<
                        ResponseView,
                        ErrorView,
                    >(ResponseView { status, headers: fields, body: dechunked(body)->Ok_0 })
                    &&& is_chunked(fields) && dechunked(body) is Err ==> r == Err::<
                        ResponseView,
                        ErrorView,
                    >(dechunked(body)->Err_0)
                },
            }
        }),
{
    reveal_strlit("\r\n");
    assert("\r\n"@ =~= seq!['\r', '\n']);
}

/// A body comes in chunks where some field named `Transfer-Encoding`, in any case,
/// lists `chunked` among its codings, in any case; no other field has a say.
pub proof fn law_transfer_encoding_decides(
    fields: Seq<(Seq<char>, Seq<char>)>,
    name: Seq<char>,
    codings: Seq<Seq<char>>,
)
    requires
        codings.len() > 0,
        forall|i: int| 0 <= i < codings.len() ==> !(#[trigger] codings[i]).contains(','),
    ensures
        !is_chunked(seq![]),
        is_chunked(fields.push((name, text::joined(codings, ","@)))) <==> is_chunked(fields) || (
        text::alike(name, "transfer-encoding"@) && exists|i: int|
            0 <= i < codings.len() && text::alike(
                #[trigger] text::trimmed(codings[i]),
                "chunked"@,
            )),
{
    reveal_strlit(",");
    assert(","@ =~= seq![',']);
    text::law_split_undoes_join(codings, ',');
    let field = (name, text::joined(codings, ","@));
    let more = fields.push(field);
    assert(text::pieces(field.1, seq![',']) == codings);
    if is_chunked(fields) {
        let i = choose|i: int| 0 <= i < fields.len() && says_chunked(#[trigger] fields[i]);
        assert(more[i] == fields[i]);
    }
    assert(more[fields.len() as int] == field);
    if is_chunked(more) && !says_chunked(field) {
        let i = choose|i: int| 0 <= i < more.len() && says_chunked(#[trigger] more[i]);
        assert(more[i] == fields[i]);
    }
}

/// What has no empty line has no end of its header section, and is refused.
pub proof fn law_unended_head_is_refused(raw: Seq<u8>)
    requires
        !text::holds(raw, seq![13u8, 10u8, 13u8, 10u8]),
    ensures
        received(raw) == Err::<ResponseView, ErrorView>(
            ErrorView::Http("response missing header terminator"@),
        ),
{
    text::law_first_from(raw, head_end(), 0);
    if text::first_of(raw, head_end()) is Some {
        assert(text::occurs_at(
            raw,
            seq![13u8, 10u8, 13u8, 10u8],
            text::first_of(raw, head_end())->0 as int,
        ));
    }
}

/// Of the fields with a name, in any case, the first gives the value; where there is
/// none there is no value.
pub proof fn law_first_field_counts(
    before: Seq<(Seq<char>, Seq<char>)>,
    name: Seq<char>,
    value: Seq<char>,
    after: Seq<(Seq<char>, Seq<char>)>,
    wanted: Seq<char>,
)
    requires
        forall|i: int| 0 <= i < before.len() ==> !text::alike((#[trigger] before[i]).0, wanted),
        text::alike(name, wanted),
    ensures
        field_value(before + seq![(name, value)] + after, wanted) == Some(value),
        field_value(before, wanted) is None,
    decreases before.len(),
{
    let all = before + seq![(name, value)] + after;
    if before.len() == 0 {
        assert(all[0] == (name, value));
    } else {
        let fewer = before.skip(1);
        assert(all[0] == before[0]);
        assert(all.skip(1) =~= fewer + seq![(name, value)] + after);
        assert forall|i: int| 0 <= i < fewer.len() implies !text::alike(
            (#[trigger] fewer[i]).0,
            wanted,
        ) by {
            assert(fewer[i] == before[i + 1]);
        }
        law_first_field_counts(fewer, name, value, after, wanted);
    }
}

/// What stands before the first carriage return, line feed, carriage return and line
/// feed in a row is the header section, and what stands after them is the body.
pub proof fn law_body_follows_the_empty_line(head: Seq<u8>, body: Seq<u8>)
    requires
        !text::holds(head + seq![13u8, 10u8, 13u8], seq![13u8, 10u8, 13u8, 10u8]),
    ensures
        received(head + seq![13u8, 10u8, 13u8, 10u8] + body) == response_of(
            lossy_text(head),
            body,
        ),
{
    let end = seq![13u8, 10u8, 13u8, 10u8];
    let start = head + seq![13u8, 10u8, 13u8];
    let raw = head + end + body;
    assert(text::occurs_at(raw, head_end(), head.len() as int)) by {
        assert(raw.subrange(head.len() as int, head.len() as int + 4) =~= head_end());
    }
    assert forall|j: int| 0 <= j < head.len() implies !text::occurs_at(raw, head_end(), j) by {
        assert(raw.subrange(j, j + 4) =~= start.subrange(j, j + 4));
        assert(!text::occurs_at(start, end, j));
    }
    text::lemma_first_is(raw, head_end(), head.len());
    assert(raw.take(head.len() as int) =~= head);
    assert(raw.skip(head.len() as int + 4) =~= body);
}

} // verus!
