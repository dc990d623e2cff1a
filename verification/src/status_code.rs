use vstd::prelude::*;
use vstd::string::StrSliceExecFns;

verus! {

/// Status outcome a handler reports; the dispatcher serializes it into the
/// response line `HTTP/1.1 <code> <reason>\r\n\r\n`.
#[derive(Debug, Clone, Copy, PartialEq, Eq, Structural)]
pub enum StatusCode {
    OK,
    InternalServerError,
}

/// The exact response line a status serializes to.
pub open spec fn response_of(s: StatusCode) -> Seq<char> {
    match s {
        StatusCode::OK => ("HTTP/1.1 200 OK\r\n\r\n")@,
        StatusCode::InternalServerError => ("HTTP/1.1 500 Internal Server Error\r\n\r\n")@,
    }
}

/// The bytes of the response line, as they go on the wire.
pub open spec fn response_bytes_of(s: StatusCode) -> Seq<u8> {
    vstd::utf8::encode_utf8(response_of(s))
}

impl StatusCode {
    /// The numeric status code.
    pub fn code(&self) -> (r: u16)
        ensures
            r == 200 <==> self is OK,
            r == 500 <==> self is InternalServerError,
    {
        match self {
            StatusCode::OK => 200,
            StatusCode::InternalServerError => 500,
        }
    }

    /// The reason phrase.
    pub fn reason(&self) -> (r: &'static str)
        ensures
            self is OK ==> r@ == ("OK")@,
            self is InternalServerError ==> r@ == ("Internal Server Error")@,
    {
        match self {
            StatusCode::OK => "OK",
            StatusCode::InternalServerError => "Internal Server Error",
        }
    }

    /// Serializes the full response head for this status.
    pub fn into_bytes_response(&self) -> (r: Vec<u8>)
        ensures
            r@ == response_bytes_of(*self),
    {
        match self {
            StatusCode::OK => "HTTP/1.1 200 OK\r\n\r\n".as_bytes_vec(),
            StatusCode::InternalServerError => {
                "HTTP/1.1 500 Internal Server Error\r\n\r\n".as_bytes_vec()
            },
        }
    }
}

/// The response line is plain ASCII, so its bytes are its characters' codes,
/// one byte per character.
pub proof fn lemma_response_bytes_are_the_line(s: StatusCode)
    ensures
        response_bytes_of(s).len() == response_of(s).len(),
        forall|i: int|
            0 <= i < response_of(s).len() ==> response_bytes_of(s)[i] == response_of(s)[i] as u8,
{
    reveal_strlit("HTTP/1.1 200 OK\r\n\r\n");
    reveal_strlit("HTTP/1.1 500 Internal Server Error\r\n\r\n");
    assert(vstd::utf8::is_ascii_chars(response_of(s)));
    vstd::utf8::is_ascii_chars_encode_utf8(response_of(s));
}

/// Distinct statuses serialize to distinct response lines, so no connection
/// can mistake another's response for its own.
pub proof fn lemma_responses_distinct(s1: StatusCode, s2: StatusCode)
    ensures
        (response_of(s1) == response_of(s2)) <==> s1 == s2,
{
    reveal_strlit("HTTP/1.1 200 OK\r\n\r\n");
    reveal_strlit("HTTP/1.1 500 Internal Server Error\r\n\r\n");
    assert(("HTTP/1.1 200 OK\r\n\r\n")@.len() == 19);
    assert(("HTTP/1.1 500 Internal Server Error\r\n\r\n")@.len() == 38);
}

} // verus!
