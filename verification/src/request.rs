use vstd::prelude::*;
use crate::error::AlcazarError;
use crate::error::HttpError;
use crate::error::ParseError;
use crate::routing::endpoint::spec_method;
use crate::routing::endpoint::MethodType;
use crate::text::str_eq;
use vstd::string::StrSliceExecFns;

verus! {

// ---------------------------------------------------------------------------
// The request head, as the wire shows it.
// ---------------------------------------------------------------------------

/// The four characters `\r\n\r\n` stand at `i`: the head ends here.
pub open spec fn terminator_at(s: Seq<char>, i: int) -> bool
    recommends
        0 <= i,
        i + 4 <= s.len(),
{
    s[i] == '\r' && s[i + 1] == '\n' && s[i + 2] == '\r' && s[i + 3] == '\n'
}

/// First position at or after `i` where the head terminator stands; `-1`
/// when the accumulated bytes hold no complete head yet.
pub open spec fn head_end_from(s: Seq<char>, i: int) -> int
    decreases s.len() - i,
        when 0 <= i <= s.len()
{
    if i + 4 > s.len() {
        -1
    } else if terminator_at(s, i) {
        i
    } else {
        head_end_from(s, i + 1)
    }
}

/// Where the request head ends, or `-1` while it is still incomplete.
pub open spec fn head_end(s: Seq<char>) -> int {
    head_end_from(s, 0)
}

pub proof fn lemma_head_end_from(s: Seq<char>, i: int)
    requires
        0 <= i <= s.len(),
    ensures
        head_end_from(s, i) == -1 || (i <= head_end_from(s, i) && head_end_from(s, i) + 4
            <= s.len() && terminator_at(s, head_end_from(s, i))),
        forall|j: int|
            i <= j < head_end_from(s, i) && j + 4 <= s.len() ==> !terminator_at(s, j),
        head_end_from(s, i) == -1 ==> forall|j: int|
            i <= j && j + 4 <= s.len() ==> !terminator_at(s, j),
    decreases s.len() - i,
{
    if i + 4 <= s.len() && !terminator_at(s, i) {
        lemma_head_end_from(s, i + 1);
    }
}

/// The two characters `\r\n` stand at `i`.
pub open spec fn crlf_at(s: Seq<char>, i: int) -> bool
    recommends
        0 <= i,
        i + 2 <= s.len(),
{
    s[i] == '\r' && s[i + 1] == '\n'
}

/// First position at or after `i` where `\r\n` stands; `-1` when none does.
pub open spec fn line_end_from(s: Seq<char>, i: int) -> int
    decreases s.len() - i,
        when 0 <= i <= s.len()
{
    if i + 2 > s.len() {
        -1
    } else if crlf_at(s, i) {
        i
    } else {
        line_end_from(s, i + 1)
    }
}

pub proof fn lemma_line_end_from(s: Seq<char>, i: int)
    requires
        0 <= i <= s.len(),
    ensures
        line_end_from(s, i) == -1 || (i <= line_end_from(s, i) && line_end_from(s, i) + 2
            <= s.len() && crlf_at(s, line_end_from(s, i))),
        forall|j: int| i <= j < line_end_from(s, i) && j + 2 <= s.len() ==> !crlf_at(s, j),
        line_end_from(s, i) == -1 ==> forall|j: int|
            i <= j && j + 2 <= s.len() ==> !crlf_at(s, j),
    decreases s.len() - i,
{
    if i + 2 <= s.len() && !crlf_at(s, i) {
        lemma_line_end_from(s, i + 1);
    }
}

/// A complete head has a request line: its terminator begins with `\r\n`.
pub proof fn lemma_complete_head_has_line(s: Seq<char>)
    requires
        head_end(s) >= 0,
    ensures
        0 <= line_end_from(s, 0) <= head_end(s),
{
    lemma_head_end_from(s, 0);
    lemma_line_end_from(s, 0);
    let h = head_end(s);
    assert(crlf_at(s, h));
    if line_end_from(s, 0) == -1 {
        assert(!crlf_at(s, h));
    }
    if line_end_from(s, 0) > h {
        assert(!crlf_at(s, h));
    }
}

/// First space at or after `i`, before `limit`; `limit` when none.
pub open spec fn first_space_from(s: Seq<char>, i: int, limit: int) -> int
    decreases limit - i,
        when 0 <= i <= limit <= s.len()
{
    if i >= limit {
        limit
    } else if s[i] == ' ' {
        i
    } else {
        first_space_from(s, i + 1, limit)
    }
}

pub proof fn lemma_first_space_from(s: Seq<char>, i: int, limit: int)
    requires
        0 <= i <= limit <= s.len(),
    ensures
        i <= first_space_from(s, i, limit) <= limit,
        forall|j: int| i <= j < first_space_from(s, i, limit) ==> s[j] != ' ',
        first_space_from(s, i, limit) < limit ==> s[first_space_from(s, i, limit)] == ' ',
    decreases limit - i,
{
    if i < limit && s[i] != ' ' {
        lemma_first_space_from(s, i + 1, limit);
    }
}

/// A decimal digit.
pub open spec fn is_digit_char(c: char) -> bool {
    '0' as u32 <= c as u32 <= '9' as u32
}

/// An HTTP version token: exactly `HTTP/` then digit, dot, digit.
pub open spec fn valid_version(v: Seq<char>) -> bool {
    v.len() == 8 && v.subrange(0, 5) == ("HTTP/")@ && is_digit_char(v[5]) && v[6] == '.'
        && is_digit_char(v[7])
}

/// Model of a parsed request: what the router consumes.
pub struct RequestView {
    pub method: MethodType,
    pub path: Seq<char>,
}

/// How a complete head parses.  The request line runs to the first `\r\n`;
/// it must read `METHOD SP PATH SP HTTP-VERSION`, the method spelled in the
/// fixed vocabulary.  Bytes short of a terminator are the http-semantic
/// `PartialContent`; header lines after the request line are tolerated and
/// ignored.
pub open spec fn spec_parse_head(s: Seq<char>) -> Result<RequestView, AlcazarError> {
    if head_end(s) < 0 {
        Err(AlcazarError::HttpError(HttpError::PartialContent))
    } else {
        let le = line_end_from(s, 0);
        if le == 0 {
            Err(AlcazarError::ParseError(ParseError::MethodMissing))
        } else {
            let sp1 = first_space_from(s, 0, le);
            if sp1 == le {
                Err(AlcazarError::ParseError(ParseError::PathMissing))
            } else if sp1 == 0 {
                Err(AlcazarError::ParseError(ParseError::MethodMissing))
            } else {
                let sp2 = first_space_from(s, sp1 + 1, le);
                if sp2 == sp1 + 1 {
                    Err(AlcazarError::ParseError(ParseError::PathMissing))
                } else if sp2 == le {
                    Err(AlcazarError::ParseError(ParseError::HttpParseError))
                } else if !valid_version(s.subrange(sp2 + 1, le)) {
                    Err(AlcazarError::ParseError(ParseError::HttpParseError))
                } else {
                    match spec_method(s.subrange(0, sp1)) {
                        Some(m) => Ok(RequestView { method: m, path: s.subrange(sp1 + 1, sp2) }),
                        None => Err(AlcazarError::HttpError(HttpError::MethodNotImplemented)),
                    }
                }
            }
        }
    }
}

// ---------------------------------------------------------------------------
// The executable parser.
// ---------------------------------------------------------------------------

/// A request parsed off one connection: the method and path the router
/// resolves.  It lives only until the lookup is done.
#[derive(Debug)]
pub struct HttpRequest {
    path: String,
    method: MethodType,
}

impl View for HttpRequest {
    type V = RequestView;

    closed spec fn view(&self) -> RequestView {
        RequestView { method: self.method, path: self.path@ }
    }
}

/// Where the head terminator stands, mirroring `head_end`.
#[verifier::loop_isolation(false)]
fn find_head_end(s: &str) -> (r: Option<usize>)
    ensures
        r matches Some(h) ==> head_end(s@) == h,
        r is None ==> head_end(s@) == -1,
{
    let n = s.unicode_len();
    let mut i: usize = 0;
    while n - i >= 4
        invariant
            i <= n,
            head_end_from(s@, 0) == head_end_from(s@, i as int),
        decreases n - i,
    {
        if s.get_char(i) == '\r' && s.get_char(i + 1) == '\n' && s.get_char(i + 2) == '\r'
            && s.get_char(i + 3) == '\n' {
            return Some(i);
        }
        i = i + 1;
    }
    None
}

/// Where the request line ends, mirroring `line_end_from`.
#[verifier::loop_isolation(false)]
fn find_line_end(s: &str) -> (r: Option<usize>)
    ensures
        r matches Some(h) ==> line_end_from(s@, 0) == h,
        r is None ==> line_end_from(s@, 0) == -1,
{
    let n = s.unicode_len();
    let mut i: usize = 0;
    while n - i >= 2
        invariant
            i <= n,
            line_end_from(s@, 0) == line_end_from(s@, i as int),
        decreases n - i,
    {
        if s.get_char(i) == '\r' && s.get_char(i + 1) == '\n' {
            return Some(i);
        }
        i = i + 1;
    }
    None
}

/// First space in `s[from..limit]`, mirroring `first_space_from`.
#[verifier::loop_isolation(false)]
fn find_space(s: &str, from: usize, limit: usize) -> (r: usize)
    requires
        from <= limit <= s@.len(),
    ensures
        r == first_space_from(s@, from as int, limit as int),
        from <= r <= limit,
{
    proof {
        lemma_first_space_from(s@, from as int, limit as int);
    }
    let mut i = from;
    while i < limit
        invariant
            from <= i <= limit,
            first_space_from(s@, from as int, limit as int) == first_space_from(
                s@,
                i as int,
                limit as int,
            ),
        decreases limit - i,
    {
        if s.get_char(i) == ' ' {
            return i;
        }
        i = i + 1;
    }
    limit
}

impl HttpRequest {
    /// Whether the accumulated bytes hold a complete request head.
    pub fn head_complete(buffer: &str) -> (r: bool)
        ensures
            r == (head_end(buffer@) >= 0),
    {
        find_head_end(buffer).is_some()
    }

    /// Parses a connection's accumulated bytes into a request, exactly as
    /// `spec_parse_head` reads them.
    pub fn parse_head(buffer: &str) -> (r: Result<HttpRequest, AlcazarError>)
        ensures
            spec_parse_head(buffer@) matches Ok(rv) ==> (r matches Ok(req) && req@ == rv),
            spec_parse_head(buffer@) matches Err(e) ==> r == Err::<HttpRequest, AlcazarError>(e),
    {
        let ghost s = buffer@;
        let he = find_head_end(buffer);
        if he.is_none() {
            return Err(AlcazarError::HttpError(HttpError::PartialContent));
        }
        proof {
            lemma_complete_head_has_line(s);
            lemma_line_end_from(s, 0);
        }
        let le = find_line_end(buffer).unwrap();
        if le == 0 {
            return Err(AlcazarError::ParseError(ParseError::MethodMissing));
        }
        let sp1 = find_space(buffer, 0, le);
        if sp1 == le {
            return Err(AlcazarError::ParseError(ParseError::PathMissing));
        }
        if sp1 == 0 {
            return Err(AlcazarError::ParseError(ParseError::MethodMissing));
        }
        let sp2 = find_space(buffer, sp1 + 1, le);
        if sp2 == sp1 + 1 {
            return Err(AlcazarError::ParseError(ParseError::PathMissing));
        }
        if sp2 == le {
            return Err(AlcazarError::ParseError(ParseError::HttpParseError));
        }
        // The version token: exactly `HTTP/` then digit, dot, digit.
        let ghost version = s.subrange(sp2 + 1, le as int);
        if !(le - (sp2 + 1) == 8) {
            proof {
                assert(!valid_version(version));
            }
            return Err(AlcazarError::ParseError(ParseError::HttpParseError));
        }
        let prefix = s_prefix_eq(buffer, sp2 + 1);
        proof {
            assert(version.len() == 8);
        }
        let c5 = buffer.get_char(sp2 + 6);
        let c6 = buffer.get_char(sp2 + 7);
        let c7 = buffer.get_char(sp2 + 8);
        let v_ok = prefix && digit_char(c5) && c6 == '.' && digit_char(c7);
        proof {
            assert(version[5] == s[sp2 + 6]);
            assert(version[6] == s[sp2 + 7]);
            assert(version[7] == s[sp2 + 8]);
            assert(version.subrange(0, 5) =~= s.subrange(sp2 + 1, sp2 + 6));
        }
        if !v_ok {
            proof {
                assert(!valid_version(version));
            }
            return Err(AlcazarError::ParseError(ParseError::HttpParseError));
        }
        proof {
            assert(valid_version(version));
        }
        let method_tok = buffer.substring_char(0, sp1);
        match MethodType::from_str(method_tok) {
            Ok(method) => {
                let path = buffer.substring_char(sp1 + 1, sp2).to_owned();
                Ok(HttpRequest { path, method })
            },
            Err(_) => Err(AlcazarError::HttpError(HttpError::MethodNotImplemented)),
        }
    }

    /// The request's path token.
    pub fn path(&self) -> (r: &str)
        ensures
            r@ == self@.path,
    {
        self.path.as_str()
    }

    /// The request's method.
    pub fn method(&self) -> (r: MethodType)
        ensures
            r == self@.method,
    {
        self.method
    }
}

fn digit_char(c: char) -> (r: bool)
    ensures
        r == is_digit_char(c),
{
    let u = c as u32;
    '0' as u32 <= u && u <= '9' as u32
}

/// Whether `HTTP/` stands at `at`.
fn s_prefix_eq(s: &str, at: usize) -> (r: bool)
    requires
        at + 5 <= s@.len(),
    ensures
        r == (s@.subrange(at as int, at as int + 5) == ("HTTP/")@),
{
    let n = s.unicode_len();
    let sub = s.substring_char(at, at + 5);
    str_eq(sub, "HTTP/")
}

} // verus!
