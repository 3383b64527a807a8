use vstd::prelude::*;
use vstd::string::StrSliceExecFns;
use vstd::string::StringExecFns;
use vstd::utf8::{
    encode_utf8, encode_utf8_decode_utf8, is_ascii_chars, is_ascii_chars_encode_utf8,
};

verus! {

/// What a request line asks for.
#[derive(Debug, Clone, Copy, PartialEq, Eq, Structural)]
pub enum Route {
    /// The index page.
    Index,
    /// The test page.
    TestPage,
    /// A picture, for which a fresh frame is captured first.
    Capture,
    /// Anything else.
    NotFound,
}

/// The status of a response.
#[derive(Debug, Clone, Copy, PartialEq, Eq, Structural)]
pub enum Status {
    /// The request was understood and is answered.
    Success,
    /// Nothing is served under the requested path.
    NotFound,
}

/// The route of a request line: one of the three known lines, letter for
/// letter, or not found.
pub open spec fn route_of(line: Seq<char>) -> Route {
    if line == "GET / HTTP/1.1"@ {
        Route::Index
    } else if line == "GET /test HTTP/1.1"@ {
        Route::TestPage
    } else if line == "GET /src/d5.jpg HTTP/1.1"@ {
        Route::Capture
    } else {
        Route::NotFound
    }
}

/// The character of a decimal digit.
pub open spec fn digit_char(d: nat) -> char {
    if d == 0 {
        '0'
    } else if d == 1 {
        '1'
    } else if d == 2 {
        '2'
    } else if d == 3 {
        '3'
    } else if d == 4 {
        '4'
    } else if d == 5 {
        '5'
    } else if d == 6 {
        '6'
    } else if d == 7 {
        '7'
    } else if d == 8 {
        '8'
    } else {
        '9'
    }
}

/// A number in decimal notation, without leading zeros.
pub open spec fn decimal_text(n: nat) -> Seq<char>
    decreases n,
{
    if n < 10 {
        seq![digit_char(n)]
    } else {
        decimal_text(n / 10).push(digit_char(n % 10))
    }
}

/// The bytes of a text of one-byte characters.
pub open spec fn text_bytes(text: Seq<char>) -> Seq<u8> {
    Seq::new(text.len(), |i: int| text[i] as u8)
}

/// What precedes the payload in a response: the status line, the length of
/// the payload, and an empty line.
pub open spec fn head_text(status: Status, content_length: nat) -> Seq<char> {
    status.line_text() + "\r\nContent-Length: "@ + decimal_text(content_length) + "\r\n\r\n"@
}

/// A whole response, as it goes over the wire.
pub open spec fn response_bytes(status: Status, payload: Seq<u8>) -> Seq<u8> {
    text_bytes(head_text(status, payload.len())) + payload
}

impl Status {
    /// The status line, as a sequence of characters.
    pub open spec fn line_text(self) -> Seq<char> {
        match self {
            Status::Success => "HTTP/1.1 200 OK"@,
            Status::NotFound => "HTTP/1.1 404 NOT FOUND"@,
        }
    }

    /// The status line, without the line break.
    pub fn line(&self) -> (line: &'static str)
        ensures
            line@ == self.line_text(),
    {
        match self {
            Status::Success => "HTTP/1.1 200 OK",
            Status::NotFound => "HTTP/1.1 404 NOT FOUND",
        }
    }

    /// The status code.
    pub fn code(&self) -> (code: u16)
        ensures
            code == match self {
                Status::Success => 200u16,
                Status::NotFound => 404u16,
            },
    {
        match self {
            Status::Success => 200,
            Status::NotFound => 404,
        }
    }
}

/// Whether two strings hold the same characters.
fn same_text(a: &str, b: &str) -> (same: bool)
    ensures
        same == (a@ == b@),
{
    let x = a.as_bytes();
    let y = b.as_bytes();
    proof {
        // Two strings with the same bytes hold the same characters.
        encode_utf8_decode_utf8(a@);
        encode_utf8_decode_utf8(b@);
        assert(x@ == encode_utf8(a@));
        assert(y@ == encode_utf8(b@));
    }
    if x.len() != y.len() {
        return false;
    }
    let mut i: usize = 0;
    while i < x.len()
        invariant
            x@ == encode_utf8(a@),
            y@ == encode_utf8(b@),
            x@.len() == y@.len(),
            i <= x@.len(),
            forall|j: int| 0 <= j < i ==> x@[j] == y@[j],
        decreases x@.len() - i,
    {
        if x[i] != y[i] {
            return false;
        }
        i += 1;
    }
    assert(x@ =~= y@);
    true
}

impl Route {
    /// Resolves a request line.
    pub fn of(request_line: &str) -> (route: Route)
        ensures
            route == route_of(request_line@),
    {
        if same_text(request_line, "GET / HTTP/1.1") {
            Route::Index
        } else if same_text(request_line, "GET /test HTTP/1.1") {
            Route::TestPage
        } else if same_text(request_line, "GET /src/d5.jpg HTTP/1.1") {
            Route::Capture
        } else {
            Route::NotFound
        }
    }

    /// The status that a response on this route carries.
    pub fn status(&self) -> (status: Status)
        ensures
            status == if self == Route::NotFound {
                Status::NotFound
            } else {
                Status::Success
            },
    {
        match self {
            Route::NotFound => Status::NotFound,
            _ => Status::Success,
        }
    }

    /// The file that holds the payload of a response on this route.
    pub fn payload_path(&self) -> (path: &'static str)
        ensures
            path@ == self.payload_path_text(),
    {
        match self {
            Route::Index => "./src/index.html",
            Route::TestPage => "./src/test.html",
            Route::Capture => "./src/d5.png",
            Route::NotFound => "./src/error.html",
        }
    }

    /// The path that `payload_path` returns, as a sequence of characters.
    pub open spec fn payload_path_text(self) -> Seq<char> {
        match self {
            Route::Index => "./src/index.html"@,
            Route::TestPage => "./src/test.html"@,
            Route::Capture => "./src/d5.png"@,
            Route::NotFound => "./src/error.html"@,
        }
    }

    /// The file that takes the frame captured for this route, if the route
    /// asks for a capture.
    pub fn capture_path(&self) -> (path: Option<&'static str>)
        ensures
            self == Route::Capture <==> path is Some,
            path matches Some(p) ==> p@ == "./src/d5.jpg"@,
    {
        match self {
            Route::Capture => Some("./src/d5.jpg"),
            _ => None,
        }
    }
}

/// The text of one decimal digit.
fn digit(d: usize) -> (text: &'static str)
    requires
        d < 10,
    ensures
        text@ == seq![digit_char(d as nat)],
{
    proof {
        reveal_strlit("0");
        reveal_strlit("1");
        reveal_strlit("2");
        reveal_strlit("3");
        reveal_strlit("4");
        reveal_strlit("5");
        reveal_strlit("6");
        reveal_strlit("7");
        reveal_strlit("8");
        reveal_strlit("9");
    }
    let text = if d == 0 {
        "0"
    } else if d == 1 {
        "1"
    } else if d == 2 {
        "2"
    } else if d == 3 {
        "3"
    } else if d == 4 {
        "4"
    } else if d == 5 {
        "5"
    } else if d == 6 {
        "6"
    } else if d == 7 {
        "7"
    } else if d == 8 {
        "8"
    } else {
        "9"
    };
    assert(text@ =~= seq![digit_char(d as nat)]);
    text
}

/// Writes `n` in decimal notation.
pub fn decimal(n: usize) -> (text: String)
    ensures
        text@ == decimal_text(n as nat),
    decreases n,
{
    if n < 10 {
        String::from_str(digit(n))
    } else {
        let mut text = decimal(n / 10);
        text.append(digit(n % 10));
        assert(text@ =~= decimal_text(n as nat));
        text
    }
}

/// Builds what precedes the payload of a response.
pub fn response_head(status: Status, content_length: usize) -> (head: String)
    ensures
        head@ == head_text(status, content_length as nat),
{
    let mut head = String::from_str(status.line());
    head.append("\r\nContent-Length: ");
    let length = decimal(content_length);
    head.append(length.as_str());
    head.append("\r\n\r\n");
    head
}

/// A decimal number is written in one-byte characters.
proof fn lemma_decimal_is_ascii(n: nat)
    ensures
        is_ascii_chars(decimal_text(n)),
    decreases n,
{
    if n >= 10 {
        lemma_decimal_is_ascii(n / 10);
    }
}

/// The head of a response is written in one-byte characters.
proof fn lemma_head_is_ascii(status: Status, content_length: nat)
    ensures
        is_ascii_chars(head_text(status, content_length)),
{
    reveal_strlit("HTTP/1.1 200 OK");
    reveal_strlit("HTTP/1.1 404 NOT FOUND");
    reveal_strlit("\r\nContent-Length: ");
    reveal_strlit("\r\n\r\n");
    lemma_decimal_is_ascii(content_length);
}

/// Builds a whole response: the head, then the payload.
pub fn response(status: Status, payload: &[u8]) -> (out: Vec<u8>)
    ensures
        out@ == response_bytes(status, payload@),
{
    let head = response_head(status, payload.len());
    let mut out = head.as_str().as_bytes_vec();
    proof {
        lemma_head_is_ascii(status, payload@.len());
        is_ascii_chars_encode_utf8(head@);
        assert(out@ =~= text_bytes(head@));
    }
    let ghost start = out@;
    let mut i: usize = 0;
    while i < payload.len()
        invariant
            i <= payload@.len(),
            out@ == start + payload@.take(i as int),
        decreases payload@.len() - i,
    {
        out.push(payload[i]);
        i += 1;
        assert(out@ =~= start + payload@.take(i as int));
    }
    assert(payload@.take(i as int) =~= payload@);
    out
}

} // verus!
