//! Classifying a request and framing the response to it.
//!
//! A request is whatever one read from the connection brought. Only its first
//! bytes are looked at: two request lines are known, and everything else is
//! answered with the not-found page. The response is a status line, one
//! `Content-Length` header and the body.

use vstd::prelude::*;
use vstd::string::*;

verus! {

/// What a request asks for.
#[derive(Clone, Copy, Debug, PartialEq, Eq, Structural)]
pub enum Route {
    /// The front page.
    Home,
    /// The front page, served after a pause.
    Sleep,
    /// Anything else.
    NotFound,
}

/// What the handler does for one connection once the request has been read:
/// pause, load a file, and answer under a status line.
#[derive(Clone, Copy, Debug)]
pub struct Plan {
    /// Seconds to pause before the file is loaded.
    pub delay_secs: u64,
    /// First line of the response.
    pub status_line: &'static str,
    /// Name of the file whose contents are the body.
    pub filename: &'static str,
}

/// How many bytes of a request are read, at most, before it is classified.
pub const REQUEST_BUFFER_LEN: usize = 1024;

/// The request line of the front page, as bytes.
pub open spec fn home_request_line() -> Seq<u8> {
    "GET / HTTP/1.1\r\n".spec_bytes()
}

/// The request line of the slow page, as bytes.
pub open spec fn sleep_request_line() -> Seq<u8> {
    "GET /sleep HTTP/1.1\r\n".spec_bytes()
}

/// The route of a request: decided by its first bytes alone.
pub open spec fn spec_classify(request: Seq<u8>) -> Route {
    if home_request_line().is_prefix_of(request) {
        Route::Home
    } else if sleep_request_line().is_prefix_of(request) {
        Route::Sleep
    } else {
        Route::NotFound
    }
}

/// The character of one decimal digit.
pub open spec fn digit_char(d: nat) -> char
    recommends
        d < 10,
{
    if d == 0 {
        '0'
    } else if d == 1 {
        '1'
    } else if d == 2 {
        '2'
    } else if d == 3 {
        '3'
    } else if d == 4 {
        '4'
    } else if d == 5 {
        '5'
    } else if d == 6 {
        '6'
    } else if d == 7 {
        '7'
    } else if d == 8 {
        '8'
    } else {
        '9'
    }
}

/// The number that a digit character stands for; 0 for any other character.
pub open spec fn digit_value(c: char) -> nat {
    if c == '1' {
        1
    } else if c == '2' {
        2
    } else if c == '3' {
        3
    } else if c == '4' {
        4
    } else if c == '5' {
        5
    } else if c == '6' {
        6
    } else if c == '7' {
        7
    } else if c == '8' {
        8
    } else if c == '9' {
        9
    } else {
        0
    }
}

/// A number in base ten, most significant digit first, without leading zeros.
pub open spec fn decimal(n: nat) -> Seq<char>
    decreases n,
{
    if n < 10 {
        seq![digit_char(n)]
    } else {
        decimal(n / 10).push(digit_char(n % 10))
    }
}

/// The number that a run of digits denotes in base ten.
pub open spec fn decimal_value(digits: Seq<char>) -> nat
    decreases digits.len(),
{
    if digits.len() == 0 {
        0
    } else {
        10 * decimal_value(digits.drop_last()) + digit_value(digits.last())
    }
}

/// The response to send: the status line, the length of the body in bytes as
/// the only header, an empty line, and the body.
pub open spec fn spec_response(status_line: Seq<char>, body: Seq<char>, body_bytes: nat) -> Seq<
    char,
> {
    status_line + "\r\nContent-Length: "@ + decimal(body_bytes) + "\r\n\r\n"@ + body
}

impl Route {
    /// Seconds the handler pauses before it answers.
    pub open spec fn spec_delay_secs(self) -> u64 {
        match self {
            Route::Sleep => 5,
            _ => 0,
        }
    }

    /// First line of the response.
    pub open spec fn spec_status_line(self) -> Seq<char> {
        match self {
            Route::NotFound => "HTTP/1.1 404 NOT FOUND"@,
            _ => "HTTP/1.1 200 OK"@,
        }
    }

    /// Name of the file that holds the body.
    pub open spec fn spec_filename(self) -> Seq<char> {
        match self {
            Route::NotFound => "404.html"@,
            _ => "hello.html"@,
        }
    }

    /// Seconds the handler pauses before it answers: five for the slow page,
    /// none otherwise.
    pub fn delay_secs(&self) -> (secs: u64)
        ensures
            secs == self.spec_delay_secs(),
    {
        match self {
            Route::Sleep => 5,
            _ => 0,
        }
    }

    /// First line of the response.
    pub fn status_line(&self) -> (line: &'static str)
        ensures
            line@ == self.spec_status_line(),
    {
        match self {
            Route::NotFound => "HTTP/1.1 404 NOT FOUND",
            _ => "HTTP/1.1 200 OK",
        }
    }

    /// Name of the file that holds the body.
    pub fn filename(&self) -> (name: &'static str)
        ensures
            name@ == self.spec_filename(),
    {
        match self {
            Route::NotFound => "404.html",
            _ => "hello.html",
        }
    }
}

/// Whether `buffer` begins with `pattern`.
fn starts_with(buffer: &[u8], pattern: &[u8]) -> (found: bool)
    ensures
        found == pattern@.is_prefix_of(buffer@),
{
    if pattern.len() > buffer.len() {
        return false;
    }
    let mut i: usize = 0;
    while i < pattern.len()
        invariant
            i <= pattern.len() <= buffer.len(),
            forall|k: int| 0 <= k < i ==> pattern@[k] == buffer@[k],
        decreases pattern.len() - i,
    {
        if pattern[i] != buffer[i] {
            assert(buffer@.subrange(0, pattern@.len() as int)[i as int] == buffer@[i as int]);
            return false;
        }
        i += 1;
    }
    assert(pattern@ =~= buffer@.subrange(0, pattern@.len() as int));
    true
}

/// Decides the route of a request by its first bytes.
///
/// The front page's request line wins, then the slow page's; whatever begins
/// with neither, a longer or otherwise valid request included, is not found.
pub fn classify(request: &[u8]) -> (route: Route)
    ensures
        route == spec_classify(request@),
{
    if starts_with(request, "GET / HTTP/1.1\r\n".as_bytes()) {
        Route::Home
    } else if starts_with(request, "GET /sleep HTTP/1.1\r\n".as_bytes()) {
        Route::Sleep
    } else {
        Route::NotFound
    }
}

/// Plans the answer to the request that was read from a connection.
///
/// The caller pauses for `delay_secs`, loads `filename`, frames its contents
/// with [`compose_response`] under `status_line`, and writes the result.
pub fn handle_connection(request: &[u8]) -> (plan: Plan)
    ensures
        plan.delay_secs == spec_classify(request@).spec_delay_secs(),
        plan.status_line@ == spec_classify(request@).spec_status_line(),
        plan.filename@ == spec_classify(request@).spec_filename(),
{
    let route = classify(request);
    Plan {
        delay_secs: route.delay_secs(),
        status_line: route.status_line(),
        filename: route.filename(),
    }
}

/// One decimal digit as a string.
fn digit_str(d: usize) -> (s: &'static str)
    requires
        d < 10,
    ensures
        s@ == seq![digit_char(d as nat)],
{
    proof {
        reveal_strlit("0");
        reveal_strlit("1");
        reveal_strlit("2");
        reveal_strlit("3");
        reveal_strlit("4");
        reveal_strlit("5");
        reveal_strlit("6");
        reveal_strlit("7");
        reveal_strlit("8");
        reveal_strlit("9");
    }
    let s = match d {
        0 => "0",
        1 => "1",
        2 => "2",
        3 => "3",
        4 => "4",
        5 => "5",
        6 => "6",
        7 => "7",
        8 => "8",
        _ => "9",
    };
    assert(s@ =~= seq![digit_char(d as nat)]);
    s
}

/// Writes a number in base ten.
pub fn decimal_string(n: usize) -> (s: String)
    ensures
        s@ == decimal(n as nat),
    decreases n,
{
    if n < 10 {
        String::from_str(digit_str(n))
    } else {
        let mut s = decimal_string(n / 10);
        s.append(digit_str(n % 10));
        assert(s@ =~= decimal(n as nat));
        s
    }
}

/// Frames a body as a response: the status line, `Content-Length` with the
/// body's length in bytes, an empty line, the body. No other header is sent.
pub fn compose_response(status_line: &str, body: &str) -> (response: String)
    ensures
        response@ == spec_response(status_line@, body@, body.spec_bytes().len()),
{
    let mut response = String::from_str(status_line);
    response.append("\r\nContent-Length: ");
    let length = decimal_string(body.as_bytes().len());
    response.append(length.as_str());
    response.append("\r\n\r\n");
    response.append(body);
    assert(response@ =~= spec_response(status_line@, body@, body.spec_bytes().len()));
    response
}

/// The two request lines byte by byte. Neither begins with the other, so no
/// request begins with both.
pub proof fn lemma_request_lines()
    ensures
        home_request_line() == seq![
            71u8, 69, 84, 32, 47, 32, 72, 84, 84, 80, 47, 49, 46, 49, 13, 10,
        ],
        sleep_request_line() == seq![
            71u8, 69, 84, 32, 47, 115, 108, 101, 101, 112, 32, 72, 84, 84, 80, 47, 49, 46, 49, 13,
            10,
        ],
        forall|request: Seq<u8>|
            !(home_request_line().is_prefix_of(request) && sleep_request_line().is_prefix_of(
                request,
            )),
{
    broadcast use vstd::string::is_ascii_spec_bytes;

    reveal_strlit("GET / HTTP/1.1\r\n");
    reveal_strlit("GET /sleep HTTP/1.1\r\n");
    assert(is_ascii("GET / HTTP/1.1\r\n"));
    assert(is_ascii("GET /sleep HTTP/1.1\r\n"));
    let home = seq![71u8, 69, 84, 32, 47, 32, 72, 84, 84, 80, 47, 49, 46, 49, 13, 10];
    let sleep = seq![
        71u8, 69, 84, 32, 47, 115, 108, 101, 101, 112, 32, 72, 84, 84, 80, 47, 49, 46, 49, 13, 10,
    ];
    assert(home_request_line() =~= home);
    assert(sleep_request_line() =~= sleep);
    assert forall|request: Seq<u8>|
        !(home.is_prefix_of(request) && sleep.is_prefix_of(request)) by {
        if home.is_prefix_of(request) && sleep.is_prefix_of(request) {
            assert(request.subrange(0, 16)[5] == home[5]);
            assert(request.subrange(0, 21)[5] == sleep[5]);
        }
    }
}

/// Reading a number written by [`decimal`] gives the number back, so two
/// different lengths are never announced by the same digits.
pub proof fn lemma_decimal_value(n: nat)
    ensures
        decimal_value(decimal(n)) == n,
        decimal(n).len() >= 1,
        n > 0 ==> decimal(n)[0] != '0',
    decreases n,
{
    if n < 10 {
        let digits = decimal(n);
        assert(digits.drop_last().len() == 0);
        assert(decimal_value(digits.drop_last()) == 0);
        assert(digits.last() == digit_char(n));
    } else {
        lemma_decimal_value(n / 10);
        let front = decimal(n / 10);
        let digits = decimal(n);
        assert(digits.drop_last() =~= front);
        assert(digits.last() == digit_char(n % 10));
        assert(digits[0] == front[0]);
    }
}

} // verus!
