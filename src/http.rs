//! What the server answers: the request line picks a route, and the reply is
//! a status line, one `Content-Length` header and the body.
use vstd::prelude::*;

verus! {

/// What a request asks for.
#[derive(Clone, Copy, Debug, PartialEq, Eq, Structural)]
pub enum Route {
    /// `GET / HTTP/1.1`: the shared file.
    Serve,
    /// `GET /sleep HTTP/1.1`: the shared file, after a delay.
    SleepThenServe,
    /// Anything else.
    NotFound,
}

/// The status of a reply.
#[derive(Clone, Copy, Debug, PartialEq, Eq, Structural)]
pub enum Status {
    Success,
    NotFound,
}

/// `GET / HTTP/1.1\r\n`
pub open spec fn root_request_line() -> Seq<u8> {
    seq![71u8, 69, 84, 32, 47, 32, 72, 84, 84, 80, 47, 49, 46, 49, 13, 10]
}

/// `GET /sleep HTTP/1.1\r\n`
pub open spec fn sleep_request_line() -> Seq<u8> {
    seq![71u8, 69, 84, 32, 47, 115, 108, 101, 101, 112, 32, 72, 84, 84, 80, 47, 49, 46, 49, 13, 10]
}

/// `HTTP/1.1 200 OK\r\n` or `HTTP/1.1 404 NOT FOUND\r\n`
pub open spec fn status_line(status: Status) -> Seq<u8> {
    match status {
        Status::Success => seq![72u8, 84, 84, 80, 47, 49, 46, 49, 32, 50, 48, 48, 32, 79, 75, 13, 10],
        Status::NotFound => seq![
            72u8, 84, 84, 80, 47, 49, 46, 49, 32, 52, 48, 52, 32, 78, 79, 84, 32, 70, 79, 85, 78, 68,
            13, 10,
        ],
    }
}

/// `Content-Length: `
pub open spec fn length_header() -> Seq<u8> {
    seq![67u8, 111, 110, 116, 101, 110, 116, 45, 76, 101, 110, 103, 116, 104, 58, 32]
}

/// `\r\n\r\n`
pub open spec fn header_end() -> Seq<u8> {
    seq![13u8, 10, 13, 10]
}

pub open spec fn has_prefix(s: Seq<u8>, prefix: Seq<u8>) -> bool {
    prefix.len() <= s.len() && s.subrange(0, prefix.len() as int) == prefix
}

/// The route of a request, from the start of what the client sent.
pub open spec fn route_of(request: Seq<u8>) -> Route {
    if has_prefix(request, root_request_line()) {
        Route::Serve
    } else if has_prefix(request, sleep_request_line()) {
        Route::SleepThenServe
    } else {
        Route::NotFound
    }
}

/// The decimal digits of `n`, in ASCII, without leading zeros.
pub open spec fn decimal(n: nat) -> Seq<u8>
    decreases n,
{
    if n < 10 {
        seq![(48 + n) as u8]
    } else {
        decimal(n / 10).push((48 + n % 10) as u8)
    }
}

/// The bytes of a reply with this status and body.
pub open spec fn response_of(status: Status, body: Seq<u8>) -> Seq<u8> {
    status_line(status) + length_header() + decimal(body.len()) + header_end() + body
}

/// The reply to a request on `route`: the shared file's contents where the
/// route asks for it and they could be read, the not-found page otherwise.
pub open spec fn reply_of(route: Route, served: Option<Seq<u8>>, not_found: Seq<u8>) -> Seq<u8> {
    match (route, served) {
        (Route::Serve, Some(c)) => response_of(Status::Success, c),
        (Route::SleepThenServe, Some(c)) => response_of(Status::Success, c),
        _ => response_of(Status::NotFound, not_found),
    }
}

fn append_bytes(out: &mut Vec<u8>, s: &[u8])
    ensures
        final(out)@ == old(out)@ + s@,
{
    let mut i: usize = 0;
    while i < s.len()
        invariant
            i <= s@.len(),
            out@ == old(out)@ + s@.subrange(0, i as int),
        decreases s@.len() - i,
    {
        out.push(s[i]);
        i = i + 1;
        assert(out@ =~= old(out)@ + s@.subrange(0, i as int));
    }
    assert(s@.subrange(0, s@.len() as int) =~= s@);
}

fn push_decimal(out: &mut Vec<u8>, n: usize)
    ensures
        final(out)@ == old(out)@ + decimal(n as nat),
    decreases n,
{
    if n < 10 {
        out.push((48 + n) as u8);
        assert(out@ =~= old(out)@ + decimal(n as nat));
    } else {
        push_decimal(out, n / 10);
        out.push((48 + n % 10) as u8);
        assert(out@ =~= old(out)@ + decimal(n as nat));
    }
}

/// Whether `s` begins with `prefix`.
pub fn starts_with(s: &[u8], prefix: &[u8]) -> (r: bool)
    ensures
        r == has_prefix(s@, prefix@),
{
    if prefix.len() > s.len() {
        return false;
    }
    let mut i: usize = 0;
    while i < prefix.len()
        invariant
            prefix@.len() <= s@.len(),
            i <= prefix@.len(),
            forall|j: int| 0 <= j < i ==> s@[j] == prefix@[j],
        decreases prefix@.len() - i,
    {
        if s[i] != prefix[i] {
            assert(s@.subrange(0, prefix@.len() as int)[i as int] != prefix@[i as int]);
            return false;
        }
        i = i + 1;
    }
    assert(s@.subrange(0, prefix@.len() as int) =~= prefix@);
    true
}

/// Picks the route of a request from the bytes that the client sent.
pub fn route(request: &[u8]) -> (r: Route)
    ensures
        r == route_of(request@),
{
    let root: Vec<u8> = vec![71u8, 69, 84, 32, 47, 32, 72, 84, 84, 80, 47, 49, 46, 49, 13, 10];
    let sleep: Vec<u8> = vec![
        71u8, 69, 84, 32, 47, 115, 108, 101, 101, 112, 32, 72, 84, 84, 80, 47, 49, 46, 49, 13, 10,
    ];
    assert(root@ =~= root_request_line());
    assert(sleep@ =~= sleep_request_line());
    if starts_with(request, root.as_slice()) {
        Route::Serve
    } else if starts_with(request, sleep.as_slice()) {
        Route::SleepThenServe
    } else {
        Route::NotFound
    }
}

/// The bytes of a reply: status line, `Content-Length` with the body's
/// length in bytes, a blank line, then the body.
pub fn response(status: Status, body: &[u8]) -> (r: Vec<u8>)
    ensures
        r@ == response_of(status, body@),
{
    let mut out: Vec<u8> = match status {
        Status::Success => vec![72u8, 84, 84, 80, 47, 49, 46, 49, 32, 50, 48, 48, 32, 79, 75, 13, 10],
        Status::NotFound => vec![
            72u8, 84, 84, 80, 47, 49, 46, 49, 32, 52, 48, 52, 32, 78, 79, 84, 32, 70, 79, 85, 78, 68,
            13, 10,
        ],
    };
    assert(out@ =~= status_line(status));
    let length: Vec<u8> = vec![67u8, 111, 110, 116, 101, 110, 116, 45, 76, 101, 110, 103, 116, 104, 58, 32];
    assert(length@ =~= length_header());
    append_bytes(&mut out, length.as_slice());
    push_decimal(&mut out, body.len());
    let end: Vec<u8> = vec![13u8, 10, 13, 10];
    assert(end@ =~= header_end());
    append_bytes(&mut out, end.as_slice());
    append_bytes(&mut out, body);
    out
}

/// The reply to a request on `route`, given the shared file's contents
/// (`None` where they could not be read) and the not-found page.
pub fn reply(route: Route, served: &Option<Vec<u8>>, not_found: &[u8]) -> (r: Vec<u8>)
    ensures
        r@ == reply_of(
            route,
            match served {
                Some(c) => Some(c@),
                None => None,
            },
            not_found@,
        ),
{
    match (route, served) {
        (Route::Serve, Some(c)) => response(Status::Success, c.as_slice()),
        (Route::SleepThenServe, Some(c)) => response(Status::Success, c.as_slice()),
        _ => response(Status::NotFound, not_found),
    }
}

/// The interface to listen on: `*` stands for every interface, `0.0.0.0`.
pub fn listen_interface<'a>(interface: &'a str) -> (r: &'a str)
    ensures
        interface@ == seq!['*'] ==> r@ == "0.0.0.0"@,
        interface@ != seq!['*'] ==> r@ == interface@,
{
    if interface.unicode_len() == 1 && interface.get_char(0) == '*' {
        assert(interface@ =~= seq!['*']);
        "0.0.0.0"
    } else {
        proof {
            if interface@ == seq!['*'] {
                assert(interface@.len() == 1 && interface@[0] == '*');
            }
        }
        interface
    }
}

} // verus!
