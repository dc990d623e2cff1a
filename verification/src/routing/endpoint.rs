use vstd::prelude::*;
use crate::error::AlcazarError;
use crate::error::HttpError;
use crate::routing::pattern::compile_error_matches;
use crate::routing::pattern::spec_compile;
use crate::routing::pattern::PatternType;
use crate::routing::pattern::PatternView;
use crate::text::str_eq;

verus! {

/// The fixed method vocabulary.
#[derive(Debug, Clone, Copy, PartialEq, Eq, Structural)]
#[allow(clippy::upper_case_acronyms)]
pub enum MethodType {
    POST,
    GET,
    PATCH,
    DELETE,
    CONNECT,
    OPTIONS,
    TRACE,
    HEAD,
}

/// The method a token names, if the token is spelled exactly as the
/// vocabulary spells it.
pub open spec fn spec_method(s: Seq<char>) -> Option<MethodType> {
    if s == ("POST")@ {
        Some(MethodType::POST)
    } else if s == ("GET")@ {
        Some(MethodType::GET)
    } else if s == ("PATCH")@ {
        Some(MethodType::PATCH)
    } else if s == ("DELETE")@ {
        Some(MethodType::DELETE)
    } else if s == ("CONNECT")@ {
        Some(MethodType::CONNECT)
    } else if s == ("OPTIONS")@ {
        Some(MethodType::OPTIONS)
    } else if s == ("TRACE")@ {
        Some(MethodType::TRACE)
    } else if s == ("HEAD")@ {
        Some(MethodType::HEAD)
    } else {
        None
    }
}

impl MethodType {
    /// Parses a method token; a token outside the vocabulary is the
    /// http-semantic error `MethodNotImplemented`.
    pub fn from_str(method: &str) -> (r: Result<MethodType, AlcazarError>)
        ensures
            r is Ok <==> spec_method(method@) is Some,
            r matches Ok(m) ==> spec_method(method@) == Some(m),
            r is Err ==> r == Err::<MethodType, AlcazarError>(
                AlcazarError::HttpError(HttpError::MethodNotImplemented),
            ),
    {
        if str_eq(method, "POST") {
            Ok(MethodType::POST)
        } else if str_eq(method, "GET") {
            Ok(MethodType::GET)
        } else if str_eq(method, "PATCH") {
            Ok(MethodType::PATCH)
        } else if str_eq(method, "DELETE") {
            Ok(MethodType::DELETE)
        } else if str_eq(method, "CONNECT") {
            Ok(MethodType::CONNECT)
        } else if str_eq(method, "OPTIONS") {
            Ok(MethodType::OPTIONS)
        } else if str_eq(method, "TRACE") {
            Ok(MethodType::TRACE)
        } else if str_eq(method, "HEAD") {
            Ok(MethodType::HEAD)
        } else {
            Err(AlcazarError::HttpError(HttpError::MethodNotImplemented))
        }
    }
}

/// Model of a registered endpoint.
pub struct EndpointView {
    pub pattern: PatternView,
    pub methods: Seq<MethodType>,
    pub handler: u64,
}

/// A registered route: a compiled pattern, the methods it accepts, and the
/// reference under which the registrar knows the route's handler.  Immutable
/// once built.
#[derive(Debug)]
pub struct Endpoint {
    pattern: PatternType,
    methods: Vec<MethodType>,
    handler: u64,
}

impl View for Endpoint {
    type V = EndpointView;

    closed spec fn view(&self) -> EndpointView {
        EndpointView { pattern: self.pattern@, methods: self.methods@, handler: self.handler }
    }
}

impl Endpoint {
    /// Compiles the template and bundles the route; a template the compiler
    /// rejects rejects the route.
    pub fn new(path: &str, methods: Vec<MethodType>, handler: u64) -> (r: Result<
        Endpoint,
        AlcazarError,
    >)
        ensures
            r is Ok <==> spec_compile(path@) is Ok,
            r matches Ok(ep) ==> spec_compile(path@) matches Ok(pv) && ep@ == (EndpointView {
                pattern: pv,
                methods: methods@,
                handler,
            }),
            r matches Err(e) ==> (spec_compile(path@) matches Err(f) && compile_error_matches(
                e,
                f,
                path@,
            )),
    {
        match PatternType::from_str(path) {
            Ok(pattern) => Ok(Endpoint { pattern, methods, handler }),
            Err(e) => Err(e),
        }
    }

    /// The compiled pattern requests are matched against.
    pub fn pattern(&self) -> (r: &PatternType)
        ensures
            r@ == self@.pattern,
    {
        &self.pattern
    }

    /// The methods this route accepts.
    pub fn methods(&self) -> (r: &Vec<MethodType>)
        ensures
            r@ == self@.methods,
    {
        &self.methods
    }

    /// The registrar's reference to this route's handler.
    pub fn handler(&self) -> (r: u64)
        ensures
            r == self@.handler,
    {
        self.handler
    }
}

impl Clone for Endpoint {
    /// A clone carries the same pattern, methods and handler reference.
    fn clone(&self) -> (r: Self)
        ensures
            r@ == self@,
    {
        Endpoint {
            pattern: self.pattern.clone(),
            methods: clone_methods(&self.methods),
            handler: self.handler,
        }
    }
}

fn clone_methods(methods: &Vec<MethodType>) -> (r: Vec<MethodType>)
    ensures
        r@ == methods@,
{
    let mut out: Vec<MethodType> = Vec::new();
    let mut i: usize = 0;
    while i < methods.len()
        invariant
            i <= methods@.len(),
            out@ == methods@.subrange(0, i as int),
        decreases methods@.len() - i,
    {
        out.push(methods[i]);
        proof {
            assert(out@ =~= methods@.subrange(0, i + 1 as int));
        }
        i = i + 1;
    }
    proof {
        assert(methods@.subrange(0, methods@.len() as int) =~= methods@);
    }
    out
}

} // verus!
