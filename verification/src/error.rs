use vstd::prelude::*;
use vstd::string::StringExecFns;

verus! {

/// Conditions with a natural status-code mapping.
#[derive(Debug, Clone)]
pub enum HttpError {
    /// The connection ended before a complete request head was seen.
    PartialContent,
    /// A handler failed, or no endpoint resolved for the request.
    InternalServerError,
    /// The request's method token is not in the method vocabulary.
    MethodNotImplemented,
}

/// A malformed request head.
#[derive(Debug, Clone)]
pub enum ParseError {
    /// The request line is not `METHOD SP PATH SP HTTP-VERSION`.
    HttpParseError,
    /// The method token is missing from the request line.
    MethodMissing,
    /// The path token is missing from the request line.
    PathMissing,
}

/// Rejections raised while registering a route, never at request time.
#[derive(Debug, Clone)]
pub enum RoutingError {
    /// A fragment of the template holds a brace that is not part of a
    /// well-formed `{identifier}` token.
    InvalidPathError { part: String, path: String },
    /// The template scanned cleanly but its matcher cannot be built;
    /// the payload names the parameter declared twice.
    PatternCompileFailure(String),
}

/// The error union every component of the server core returns into.
#[derive(Debug, Clone)]
pub enum AlcazarError {
    /// A socket-level failure, recorded by the connection driver.
    WrapIOError,
    HttpError(HttpError),
    ParseError(ParseError),
    RoutingError(RoutingError),
}

/// The text a `RoutingError::InvalidPathError { part, path }` renders to.
pub open spec fn invalid_path_message(part: Seq<char>, path: Seq<char>) -> Seq<char> {
    ("found an invalid \"")@ + part + ("\" part of the \"")@ + path + ("\" path.")@
}

/// The text a `RoutingError::PatternCompileFailure(name)` renders to.
pub open spec fn compile_failure_message(name: Seq<char>) -> Seq<char> {
    ("can't compile the matcher: parameter \"")@ + name + ("\" is declared twice.")@
}

impl RoutingError {
    /// Renders the error as the line a user sees.
    pub fn message(&self) -> (r: String)
        ensures
            self matches RoutingError::InvalidPathError { part, path } ==> r@
                == invalid_path_message(part@, path@),
            self matches RoutingError::PatternCompileFailure(name) ==> r@
                == compile_failure_message(name@),
    {
        match self {
            RoutingError::InvalidPathError { part, path } => {
                let mut m = String::from_str("found an invalid \"");
                m.append(part.as_str());
                m.append("\" part of the \"");
                m.append(path.as_str());
                m.append("\" path.");
                m
            },
            RoutingError::PatternCompileFailure(name) => {
                let mut m = String::from_str("can't compile the matcher: parameter \"");
                m.append(name.as_str());
                m.append("\" is declared twice.");
                m
            },
        }
    }
}

impl HttpError {
    /// Renders the error as the line a user sees.
    pub fn message(&self) -> (r: String)
        ensures
            self is PartialContent ==> r@ == ("partial content sended: status code 206")@,
            self is InternalServerError ==> r@ == ("internal server error: status code 500")@,
            self is MethodNotImplemented ==> r@ == ("method not implemented: status code 501")@,
    {
        match self {
            HttpError::PartialContent => String::from_str("partial content sended: status code 206"),
            HttpError::InternalServerError => String::from_str("internal server error: status code 500"),
            HttpError::MethodNotImplemented => String::from_str("method not implemented: status code 501"),
        }
    }
}

impl ParseError {
    /// Renders the error as the line a user sees.
    pub fn message(&self) -> (r: String)
        ensures
            self is HttpParseError ==> r@ == ("the request line is malformed")@,
            self is MethodMissing ==> r@ == ("method is missing in the request")@,
            self is PathMissing ==> r@ == ("path is missing in the request")@,
    {
        match self {
            ParseError::HttpParseError => String::from_str("the request line is malformed"),
            ParseError::MethodMissing => String::from_str("method is missing in the request"),
            ParseError::PathMissing => String::from_str("path is missing in the request"),
        }
    }
}

impl AlcazarError {
    /// Renders the error as the line a user sees.
    pub fn message(&self) -> (r: String)
        ensures
            self is WrapIOError ==> r@ == ("the connection failed")@,
            self matches AlcazarError::RoutingError(e) ==> (e matches RoutingError::InvalidPathError {
                part,
                path,
            } ==> r@ == invalid_path_message(part@, path@)),
    {
        match self {
            AlcazarError::WrapIOError => String::from_str("the connection failed"),
            AlcazarError::HttpError(e) => e.message(),
            AlcazarError::ParseError(e) => e.message(),
            AlcazarError::RoutingError(e) => e.message(),
        }
    }
}

} // verus!
