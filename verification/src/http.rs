use vstd::prelude::*;

verus! {

use vstd::string::StringExecFns;
use vstd::string::StrSliceExecFns;
use vstd::utf8::encode_utf8;

/// A structured HTTP request: the request line plus the header fields, all
/// holding their own copies of the request bytes.
#[derive(Debug)]
pub struct Request {
    pub method: String,
    pub path: String,
    pub version: u8,
    pub headers: Vec<(String, Vec<u8>)>,
}

/// Mathematical model of a [`Request`].
pub struct RequestView {
    pub method: Seq<char>,
    pub path: Seq<char>,
    pub version: u8,
    pub headers: Seq<(Seq<char>, Seq<u8>)>,
}

impl View for Request {
    type V = RequestView;

    open spec fn view(&self) -> RequestView {
        RequestView {
            method: self.method@,
            path: self.path@,
            version: self.version,
            headers: self.headers.deep_view(),
        }
    }
}

/// What the request-line parser hands back on a complete request, before the
/// request line has been checked for the fields the server needs.
#[derive(Debug)]
pub struct RawRequest {
    pub method: Option<String>,
    pub path: Option<String>,
    pub version: Option<u8>,
    pub headers: Vec<(String, Vec<u8>)>,
}

/// Mathematical model of a [`RawRequest`].
pub struct RawRequestView {
    pub method: Option<Seq<char>>,
    pub path: Option<Seq<char>>,
    pub version: Option<u8>,
    pub headers: Seq<(Seq<char>, Seq<u8>)>,
}

impl View for RawRequest {
    type V = RawRequestView;

    open spec fn view(&self) -> RawRequestView {
        RawRequestView {
            method: self.method.deep_view(),
            path: self.path.deep_view(),
            version: self.version,
            headers: self.headers.deep_view(),
        }
    }
}

/// Outcome of one pass of the request-line parser over a byte buffer.
#[derive(Debug)]
pub enum Parsed {
    /// The buffer holds a full request line and header block.
    Complete(RawRequest),
    /// The buffer is a prefix of a request: more bytes are needed.
    Partial,
    /// The buffer cannot be a request.
    Malformed,
}

/// Mathematical model of a [`Parsed`].
pub enum ParsedView {
    Complete(RawRequestView),
    Partial,
    Malformed,
}

impl View for Parsed {
    type V = ParsedView;

    open spec fn view(&self) -> ParsedView {
        match self {
            Parsed::Complete(raw) => ParsedView::Complete(raw@),
            Parsed::Partial => ParsedView::Partial,
            Parsed::Malformed => ParsedView::Malformed,
        }
    }
}

/// The outcome of the request parser on the given bytes, with sixteen header
/// slots and the default configuration; a pure function of the input.
pub uninterp spec fn http_parse(input: Seq<u8>) -> ParsedView;

/// Relies on `httparse::Request::parse` (default configuration, sixteen
/// header slots, as the server allocates them): it returns `Ok(Complete)`
/// with the method, path, version and headers it read, `Ok(Partial)` when
/// the buffer ends before the header block does, and `Err` on bytes that are
/// not a request; the outcome depends on the input bytes alone.
#[verifier::external_body]
fn parse_with_httparse(buf: &[u8]) -> (r: Parsed)
    ensures
        r@ == http_parse(buf@),
{
    let mut headers = [httparse::EMPTY_HEADER; 16];
    let mut req = httparse::Request::new(&mut headers);
    match req.parse(buf) {
        Err(_) => Parsed::Malformed,
        Ok(httparse::Status::Partial) => Parsed::Partial,
        Ok(httparse::Status::Complete(_)) => Parsed::Complete(RawRequest {
            method: req.method.map(|s| s.to_string()),
            path: req.path.map(|s| s.to_string()),
            version: req.version,
            headers: req.headers.iter().map(|h| (h.name.to_string(), h.value.to_vec())).collect(),
        }),
    }
}

/// Why a buffer was rejected by [`parse_request`].
#[derive(Clone, Copy, Debug, PartialEq, Eq, Structural)]
pub enum ParseError {
    /// The bytes are not an HTTP request.
    Malformed,
    /// The parser completed without a method.
    MissingMethod,
    /// The parser completed without a path.
    MissingPath,
    /// The parser completed without a version.
    MissingVersion,
}

/// What [`parse_request`] returns on the given input bytes.
pub open spec fn spec_parse_request(input: Seq<u8>) -> Result<Option<RequestView>, ParseError> {
    match http_parse(input) {
        ParsedView::Malformed => Err(ParseError::Malformed),
        ParsedView::Partial => Ok(None),
        ParsedView::Complete(raw) => match (raw.method, raw.path, raw.version) {
            (Some(method), Some(path), Some(version)) => Ok(
                Some(RequestView { method, path, version, headers: raw.headers }),
            ),
            (None, _, _) => Err(ParseError::MissingMethod),
            (Some(_), None, _) => Err(ParseError::MissingPath),
            (Some(_), Some(_), None) => Err(ParseError::MissingVersion),
        },
    }
}

/// Runs the request parser over `buf`: a structured request when the buffer
/// holds a complete one, `None` when more bytes are needed, and an error when
/// the bytes are rejected.
pub fn parse_request(buf: &[u8]) -> (r: Result<Option<Request>, ParseError>)
    ensures
        match (r, spec_parse_request(buf@)) {
            (Ok(Some(req)), Ok(Some(v))) => req@ == v,
            (Ok(None), Ok(None)) => true,
            (Err(actual), Err(expected)) => actual == expected,
            _ => false,
        },
{
    match parse_with_httparse(buf) {
        Parsed::Malformed => Err(ParseError::Malformed),
        Parsed::Partial => Ok(None),
        Parsed::Complete(raw) => {
            let RawRequest { method, path, version, headers } = raw;
            match (method, path, version) {
                (Some(method), Some(path), Some(version)) => Ok(
                    Some(Request { method, path, version, headers }),
                ),
                (None, _, _) => Err(ParseError::MissingMethod),
                (Some(_), None, _) => Err(ParseError::MissingPath),
                (Some(_), Some(_), None) => Err(ParseError::MissingVersion),
            }
        },
    }
}

/// An HTTP response before serialization: the status line text (such as
/// `200 OK`) and the header fields. The body travels beside it as plain bytes.
#[derive(Debug)]
pub struct Response {
    pub status: String,
    pub headers: Vec<(String, String)>,
}

/// Mathematical model of a [`Response`].
pub struct ResponseView {
    pub status: Seq<char>,
    pub headers: Seq<(Seq<char>, Seq<char>)>,
}

impl View for Response {
    type V = ResponseView;

    open spec fn view(&self) -> ResponseView {
        ResponseView { status: self.status@, headers: self.headers.deep_view() }
    }
}

/// The character a decimal digit prints as.
pub open spec fn spec_digit_char(d: int) -> char {
    if d == 0 {
        '0'
    } else if d == 1 {
        '1'
    } else if d == 2 {
        '2'
    } else if d == 3 {
        '3'
    } else if d == 4 {
        '4'
    } else if d == 5 {
        '5'
    } else if d == 6 {
        '6'
    } else if d == 7 {
        '7'
    } else if d == 8 {
        '8'
    } else {
        '9'
    }
}

/// The decimal notation of `n`, most significant digit first, no leading
/// zeroes (a single `0` for zero).
pub open spec fn spec_decimal(n: nat) -> Seq<char>
    decreases n,
{
    if n < 10 {
        seq![spec_digit_char(n as int)]
    } else {
        spec_decimal(n / 10) + seq![spec_digit_char((n % 10) as int)]
    }
}

/// The one-character string for a decimal digit.
fn digit_str(d: usize) -> (s: String)
    requires
        d < 10,
    ensures
        s@ == seq![spec_digit_char(d as int)],
{
    let s = if d == 0 {
        String::from_str("0")
    } else if d == 1 {
        String::from_str("1")
    } else if d == 2 {
        String::from_str("2")
    } else if d == 3 {
        String::from_str("3")
    } else if d == 4 {
        String::from_str("4")
    } else if d == 5 {
        String::from_str("5")
    } else if d == 6 {
        String::from_str("6")
    } else if d == 7 {
        String::from_str("7")
    } else if d == 8 {
        String::from_str("8")
    } else {
        String::from_str("9")
    };
    proof {
        reveal_strlit("0");
        reveal_strlit("1");
        reveal_strlit("2");
        reveal_strlit("3");
        reveal_strlit("4");
        reveal_strlit("5");
        reveal_strlit("6");
        reveal_strlit("7");
        reveal_strlit("8");
        reveal_strlit("9");
        assert(s@ =~= seq![spec_digit_char(d as int)]);
    }
    s
}

/// Writes `n` in decimal notation.
pub fn decimal_string(n: usize) -> (s: String)
    ensures
        s@ == spec_decimal(n as nat),
    decreases n,
{
    if n < 10 {
        digit_str(n)
    } else {
        proof {
            assert(n / 10 < n && n % 10 < 10) by (nonlinear_arith)
                requires
                    n >= 10,
            ;
        }
        let mut s = decimal_string(n / 10);
        let d = digit_str(n % 10);
        s.append(d.as_str());
        s
    }
}

/// One serialized header field, `name: value` and the line end.
pub open spec fn spec_header_line(h: (Seq<char>, Seq<char>)) -> Seq<char> {
    h.0 + ": "@ + h.1 + "\r\n"@
}

/// The serialized header block: each field on its own line.
pub open spec fn spec_header_lines(headers: Seq<(Seq<char>, Seq<char>)>) -> Seq<char>
    decreases headers.len(),
{
    if headers.len() == 0 {
        Seq::empty()
    } else {
        spec_header_line(headers[0]) + spec_header_lines(headers.drop_first())
    }
}

/// Extending the serialized prefix of a header block by one field appends
/// exactly that field's line.
proof fn lemma_header_lines_take(headers: Seq<(Seq<char>, Seq<char>)>, i: int)
    requires
        0 <= i < headers.len(),
    ensures
        spec_header_lines(headers.take(i + 1)) == spec_header_lines(headers.take(i))
            + spec_header_line(headers[i]),
    decreases i,
{
    if i == 0 {
        assert(headers.take(1).drop_first() =~= Seq::<(Seq<char>, Seq<char>)>::empty());
        assert(headers.take(0) =~= Seq::<(Seq<char>, Seq<char>)>::empty());
        assert(spec_header_lines(headers.take(1)) =~= spec_header_lines(headers.take(0))
            + spec_header_line(headers[0]));
    } else {
        let rest = headers.drop_first();
        lemma_header_lines_take(rest, i - 1);
        assert(headers.take(i + 1).drop_first() =~= rest.take(i));
        assert(headers.take(i).drop_first() =~= rest.take(i - 1));
        assert(headers.take(i + 1)[0] == headers[0]);
        assert(headers.take(i)[0] == headers[0]);
        assert(spec_header_line(headers.take(i + 1)[0]) + spec_header_lines(rest.take(i))
            =~= (spec_header_line(headers.take(i)[0]) + spec_header_lines(rest.take(i - 1)))
            + spec_header_line(rest[i - 1]));
    }
}

/// The serialized head of a response: status line, header block, and the
/// empty line that ends it.
pub open spec fn spec_response_head(resp: ResponseView) -> Seq<char> {
    "HTTP/1.1 "@ + resp.status + "\r\n"@ + spec_header_lines(resp.headers) + "\r\n"@
}

/// Serializes the status line and header block of a response. The body is
/// sent separately, straight after these characters.
pub fn format_response_head(response: &Response) -> (head: String)
    ensures
        head@ == spec_response_head(response@),
{
    let ghost pieces: Seq<char> = "HTTP/1.1 "@ + response@.status + "\r\n"@;
    let mut head = String::from_str("HTTP/1.1 ");
    head.append(response.status.as_str());
    head.append("\r\n");
    assert(head@ =~= pieces + spec_header_lines(response@.headers.take(0)));
    let n = response.headers.len();
    let mut i: usize = 0;
    while i < n
        invariant
            i <= n,
            n == response.headers.len(),
            head@ == pieces + spec_header_lines(response@.headers.take(i as int)),
        decreases n - i,
    {
        let ghost before = head@;
        head.append(response.headers[i].0.as_str());
        head.append(": ");
        head.append(response.headers[i].1.as_str());
        head.append("\r\n");
        proof {
            assert(response@.headers[i as int] == (
                response.headers@[i as int].0@,
                response.headers@[i as int].1@,
            ));
            assert(head@ =~= before + spec_header_line(response@.headers[i as int]));
            lemma_header_lines_take(response@.headers, i as int);
            assert(head@ =~= pieces + spec_header_lines(response@.headers.take(i as int + 1)));
        }
        i += 1;
    }
    assert(response@.headers.take(n as int) =~= response@.headers);
    head.append("\r\n");
    assert(head@ =~= spec_response_head(response@));
    head
}

/// The HTML page sent with an error status: the status text as title and
/// heading, the message as a paragraph.
pub open spec fn spec_error_body(status: Seq<char>, msg: Seq<char>) -> Seq<char> {
    "<html><head><title>"@ + status + "</title></head><body><h1>"@ + status + "</h1><p>"@ + msg
        + "</p>\n            </body></html>"@
}

/// The response [`make_error_response`] builds: the given status line, a
/// `text/html` content type, and the content length of the HTML body.
pub open spec fn spec_error_response(status: Seq<char>, msg: Seq<char>) -> (ResponseView, Seq<
    u8,
>) {
    let body = encode_utf8(spec_error_body(status, msg));
    (
        ResponseView {
            status,
            headers: seq![
                ("content-type"@, "text/html"@),
                ("content-length"@, spec_decimal(body.len())),
            ],
        },
        body,
    )
}

/// Builds the error response for a status line such as `404 Not Found`: a
/// small HTML page quoting the status and the message.
pub fn make_error_response(status: &str, msg: &str) -> (r: (Response, Vec<u8>))
    ensures
        r.0@ == spec_error_response(status@, msg@).0,
        r.1@ == spec_error_response(status@, msg@).1,
{
    let mut body = String::from_str("<html><head><title>");
    body.append(status);
    body.append("</title></head><body><h1>");
    body.append(status);
    body.append("</h1><p>");
    body.append(msg);
    body.append("</p>\n            </body></html>");
    assert(body@ =~= spec_error_body(status@, msg@));
    let body_bytes = body.as_str().as_bytes_vec();
    let content_length = decimal_string(body_bytes.len());
    let mut headers: Vec<(String, String)> = Vec::new();
    headers.push((String::from_str("content-type"), String::from_str("text/html")));
    headers.push((String::from_str("content-length"), content_length));
    let response = Response { status: String::from_str(status), headers };
    proof {
        assert(response@.headers =~= spec_error_response(status@, msg@).0.headers);
    }
    (response, body_bytes)
}

/// The index of the last occurrence of `c` in `s`, if any.
fn last_char_index(s: &str, c: char) -> (r: Option<usize>)
    ensures
        match (r, s@.index_of_last(c)) {
            (Some(i), Some(j)) => i as int == j,
            (None, None) => true,
            _ => false,
        },
{
    let n = s.unicode_len();
    let mut i = n;
    while i > 0
        invariant
            i <= n,
            n == s@.len(),
            forall|j: int| i <= j < n ==> s@[j] != c,
        decreases i,
    {
        let ch = s.get_char(i - 1);
        if ch == c {
            proof {
                s@.index_of_last_ensures(c);
                let j = s@.index_of_last(c).unwrap();
                assert(!(j < i - 1)) by {
                    if j < i - 1 {
                        assert(s@[i - 1] != c);
                    }
                }
                assert(!(i - 1 < j)) by {
                    if i - 1 < j {
                        assert(s@[j] != c);
                    }
                }
            }
            return Some(i - 1);
        }
        i -= 1;
    }
    proof {
        s@.index_of_last_ensures(c);
        if s@.index_of_last(c) is Some {
            let j = s@.index_of_last(c).unwrap();
            assert(s@[j] != c);
        }
    }
    None
}

/// The part of a path after its last separator: the file's own name.
pub open spec fn spec_file_name(path: Seq<char>) -> Seq<char> {
    match path.index_of_last('/') {
        Some(i) => path.subrange(i + 1, path.len() as int),
        None => path,
    }
}

/// The extension of the file named by a path: what follows the last dot of
/// the file name, none when the name has no dot past its first character.
pub open spec fn spec_extension(path: Seq<char>) -> Option<Seq<char>> {
    let name = spec_file_name(path);
    match name.index_of_last('.') {
        Some(i) => if i >= 1 {
            Some(name.subrange(i + 1, name.len() as int))
        } else {
            None
        },
        None => None,
    }
}

/// The part of `path` after its last `/`.
fn file_name_of(path: &str) -> (r: String)
    ensures
        r@ == spec_file_name(path@),
{
    match last_char_index(path, '/') {
        None => String::from_str(path),
        Some(i) => {
            proof {
                path@.index_of_last_ensures('/');
            }
            let n = path.unicode_len();
            String::from_str(path.substring_char(i + 1, n))
        },
    }
}

/// The extension of the file named by `path`, as [`spec_extension`] gives it.
fn extension_of(path: &str) -> (r: Option<String>)
    ensures
        r.deep_view() == spec_extension(path@),
{
    let name = file_name_of(path);
    let n = name.as_str().unicode_len();
    match last_char_index(name.as_str(), '.') {
        None => None,
        Some(i) => if i >= 1 {
            proof {
                name@.index_of_last_ensures('.');
            }
            Some(String::from_str(name.as_str().substring_char(i + 1, n)))
        } else {
            None
        },
    }
}

/// The media type served for a file, decided by its extension; plain text
/// when the extension is unknown or absent.
pub open spec fn spec_content_type(path: Seq<char>) -> Seq<char> {
    match spec_extension(path) {
        Some(ext) => if ext == "jpg"@ || ext == "jpeg"@ {
            "image/jpg"@
        } else if ext == "png"@ {
            "image/png"@
        } else if ext == "gif"@ {
            "image/gif"@
        } else if ext == "html"@ || ext == "htm"@ {
            "text/html"@
        } else if ext == "js"@ {
            "application/javascript"@
        } else if ext == "css"@ {
            "text/css"@
        } else if ext == "txt"@ {
            "text/plain"@
        } else if ext == "json"@ {
            "application/json"@
        } else {
            "text/plain"@
        },
        None => "text/plain"@,
    }
}

/// Picks the media type for the file at `path` from its extension.
pub fn content_type_for(path: &str) -> (r: String)
    ensures
        r@ == spec_content_type(path@),
{
    match extension_of(path) {
        None => String::from_str("text/plain"),
        Some(ext) => if ext == String::from_str("jpg") || ext == String::from_str("jpeg") {
            String::from_str("image/jpg")
        } else if ext == String::from_str("png") {
            String::from_str("image/png")
        } else if ext == String::from_str("gif") {
            String::from_str("image/gif")
        } else if ext == String::from_str("html") || ext == String::from_str("htm") {
            String::from_str("text/html")
        } else if ext == String::from_str("js") {
            String::from_str("application/javascript")
        } else if ext == String::from_str("css") {
            String::from_str("text/css")
        } else if ext == String::from_str("txt") {
            String::from_str("text/plain")
        } else if ext == String::from_str("json") {
            String::from_str("application/json")
        } else {
            String::from_str("text/plain")
        },
    }
}

/// Where the served file for a request path lives: the path relative to the
/// document root, with the directory page appended for a directory request.
/// A request path that is itself absolute past its first character replaces
/// the root, as joining filesystem paths does.
pub open spec fn spec_file_path(path: Seq<char>) -> Seq<char>
    recommends
        path.len() >= 1,
{
    let rest = path.drop_first();
    let joined = if rest.len() > 0 && rest[0] == '/' {
        rest
    } else {
        "public/"@ + rest
    };
    if path.last() == '/' {
        joined + "index.html"@
    } else {
        joined
    }
}

/// Maps a request path to the filesystem path of the file to serve.
pub fn file_path_for(path: &str) -> (r: String)
    requires
        path@.len() >= 1,
    ensures
        r@ == spec_file_path(path@),
{
    let n = path.unicode_len();
    let rest = path.substring_char(1, n);
    let is_dir = path.get_char(n - 1) == '/';
    let mut joined = if n > 1 && path.get_char(1) == '/' {
        String::from_str(rest)
    } else {
        let mut j = String::from_str("public/");
        j.append(rest);
        j
    };
    if is_dir {
        joined.append("index.html");
    }
    proof {
        assert(path@.drop_first() =~= path@.subrange(1, path@.len() as int));
    }
    joined
}

/// The full byte image of a response as it is handed to the kernel: the
/// serialized head followed by the body bytes.
pub open spec fn spec_response_bytes(resp: ResponseView, body: Seq<u8>) -> Seq<u8> {
    encode_utf8(spec_response_head(resp)) + body
}

/// Serializes a response into the one buffer written to the socket.
pub fn serialize_response(response: &Response, body: &Vec<u8>) -> (buf: Vec<u8>)
    ensures
        buf@ == spec_response_bytes(response@, body@),
{
    let head = format_response_head(response);
    let mut buf = head.as_str().as_bytes_vec();
    buf.extend_from_slice(body.as_slice());
    proof {
        assert(buf@ =~= spec_response_bytes(response@, body@));
    }
    buf
}

/// What the filesystem reported for a file the server was asked for.
#[derive(Debug)]
pub enum FileOutcome {
    /// The file exists, with these bytes.
    Found(Vec<u8>),
    /// There is no file at the path.
    NotFound,
    /// The filesystem failed some other way; the text of its error.
    Failed(String),
}

/// Mathematical model of a [`FileOutcome`].
pub enum FileOutcomeView {
    Found(Seq<u8>),
    NotFound,
    Failed(Seq<char>),
}

impl View for FileOutcome {
    type V = FileOutcomeView;

    open spec fn view(&self) -> FileOutcomeView {
        match self {
            FileOutcome::Found(content) => FileOutcomeView::Found(content@),
            FileOutcome::NotFound => FileOutcomeView::NotFound,
            FileOutcome::Failed(msg) => FileOutcomeView::Failed(msg@),
        }
    }
}

/// A failure while building a response; the server answers it with an
/// internal-error page rather than dropping the connection.
#[derive(Debug)]
pub struct HandlerError {
    pub msg: String,
}

impl View for HandlerError {
    type V = Seq<char>;

    open spec fn view(&self) -> Seq<char> {
        self.msg@
    }
}

/// The response for a file request: the file's bytes under its media type,
/// a not-found page quoting the request path, or the filesystem's error.
pub open spec fn spec_get_response(
    fs_path: Seq<char>,
    request_path: Seq<char>,
    file: FileOutcomeView,
) -> Result<(ResponseView, Seq<u8>), Seq<char>> {
    match file {
        FileOutcomeView::NotFound => Ok(
            spec_error_response("404 Not Found"@, "Not Found: "@ + request_path),
        ),
        FileOutcomeView::Found(content) => Ok(
            (
                ResponseView {
                    status: "200 OK"@,
                    headers: seq![
                        ("content-type"@, spec_content_type(fs_path)),
                        ("content-length"@, spec_decimal(content.len())),
                    ],
                },
                content,
            ),
        ),
        FileOutcomeView::Failed(msg) => Err(msg),
    }
}

/// Builds the response for a file request, given what the filesystem
/// reported for the path [`file_path_for`] mapped it to.
pub fn get_response(fs_path: &str, request_path: &str, file: FileOutcome) -> (r: Result<
    (Response, Vec<u8>),
    HandlerError,
>)
    ensures
        match (r, spec_get_response(fs_path@, request_path@, file@)) {
            (Ok(actual), Ok(expected)) => actual.0@ == expected.0 && actual.1@ == expected.1,
            (Err(actual), Err(expected)) => actual@ == expected,
            _ => false,
        },
{
    match file {
        FileOutcome::NotFound => {
            let mut msg = String::from_str("Not Found: ");
            msg.append(request_path);
            Ok(make_error_response("404 Not Found", msg.as_str()))
        },
        FileOutcome::Found(content) => {
            let content_length = decimal_string(content.len());
            let mut headers: Vec<(String, String)> = Vec::new();
            headers.push((String::from_str("content-type"), content_type_for(fs_path)));
            headers.push((String::from_str("content-length"), content_length));
            let response = Response { status: String::from_str("200 OK"), headers };
            proof {
                assert(response@.headers =~= seq![
                    ("content-type"@, spec_content_type(fs_path@)),
                    ("content-length"@, spec_decimal(content@.len())),
                ]);
            }
            Ok((response, content))
        },
        FileOutcome::Failed(msg) => Err(HandlerError { msg }),
    }
}

/// What [`handle_request`] answers: for a request made with the one served
/// method, the file response; for every other method, a bad-request page.
pub open spec fn spec_handle_request(req: RequestView, file: FileOutcomeView) -> Result<
    (ResponseView, Seq<u8>),
    Seq<char>,
> {
    if req.method == "GET"@ {
        spec_get_response(spec_file_path(req.path), req.path, file)
    } else {
        Ok(spec_error_response("400 Bad Request"@, "unimplemented HTTP method"@))
    }
}

/// Routes a parsed request: serves a file for the one supported method,
/// answers a bad-request page for any other. `file` is what the filesystem
/// reported for the path the request names; it is ignored for a request
/// answered without a file.
pub fn handle_request(request: &Request, file: FileOutcome) -> (r: Result<
    (Response, Vec<u8>),
    HandlerError,
>)
    requires
        request@.method == "GET"@ ==> request@.path.len() >= 1,
    ensures
        match (r, spec_handle_request(request@, file@)) {
            (Ok(actual), Ok(expected)) => actual.0@ == expected.0 && actual.1@ == expected.1,
            (Err(actual), Err(expected)) => actual@ == expected,
            _ => false,
        },
{
    if request.method == String::from_str("GET") {
        let fs_path = file_path_for(request.path.as_str());
        get_response(fs_path.as_str(), request.path.as_str(), file)
    } else {
        Ok(make_error_response("400 Bad Request", "unimplemented HTTP method"))
    }
}

} // verus!
