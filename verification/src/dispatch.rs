use vstd::prelude::*;
use crate::error::AlcazarError;
use crate::error::HttpError;
use crate::request::spec_parse_head;
use crate::request::HttpRequest;
use crate::router::first_resolution;
use crate::router::lemma_first_resolution_from;
use crate::router::Router;
use crate::routing::endpoint::EndpointView;
use crate::status_code::response_bytes_of;
use crate::status_code::StatusCode;
use vstd::pervasive::unreached;

verus! {

// ---------------------------------------------------------------------------
// The per-connection state machine: Reading, Resolving, Executing,
// Responding, Closed, with Errored reachable from the first three.  The
// driver that owns the socket performs each state's action and feeds the
// outcome back; every decision along the way is taken here.
// ---------------------------------------------------------------------------

/// Where a connection stands.
#[derive(Debug)]
pub enum DispatchState {
    /// Reading bytes until the request head is complete.
    Reading,
    /// The head parsed; the request awaits resolution.
    Resolving { request: HttpRequest },
    /// An endpoint resolved; its handler is being driven to completion.
    Executing { handler: u64 },
    /// A status is ready; its response line is being written.
    Responding { status: StatusCode },
    /// A parse, resolution or transport failure before any response was
    /// attempted: the connection closes with nothing written.
    Errored { error: AlcazarError },
    /// Terminal; the socket is released on every exit path.
    Closed,
}

/// What the connection's driver must do next.
#[derive(Debug)]
pub enum DispatchAction {
    /// Read from the socket until the head completes or the peer closes.
    ReadHead,
    /// Resolve the parsed request against the route table.
    Resolve,
    /// Invoke the handler registered under this reference, afresh for this
    /// request, and report its outcome.
    Invoke { handler: u64 },
    /// Write these bytes, flush, and report whether the write succeeded.
    Write { bytes: Vec<u8> },
    /// Close the socket without writing anything.
    Close,
    /// Nothing remains.
    Done,
}

impl DispatchState {
    /// The action owed in the current state.  Bytes are written in the
    /// `Responding` state and nowhere else, and they are exactly the
    /// response line of this connection's own status.
    pub fn action(&self) -> (r: DispatchAction)
        ensures
            self is Reading ==> r is ReadHead,
            self is Resolving ==> r is Resolve,
            self matches DispatchState::Executing { handler } ==> r == (DispatchAction::Invoke {
                handler: *handler,
            }),
            self matches DispatchState::Responding { status } ==> (r matches DispatchAction::Write {
                bytes,
            } && bytes@ == response_bytes_of(*status)),
            self is Errored ==> r is Close,
            self is Closed ==> r is Done,
            !(self is Responding) ==> !(r is Write),
    {
        match self {
            DispatchState::Reading => DispatchAction::ReadHead,
            DispatchState::Resolving { .. } => DispatchAction::Resolve,
            DispatchState::Executing { handler } => DispatchAction::Invoke { handler: *handler },
            DispatchState::Responding { status } => DispatchAction::Write {
                bytes: status.into_bytes_response(),
            },
            DispatchState::Errored { .. } => DispatchAction::Close,
            DispatchState::Closed => DispatchAction::Done,
        }
    }

    /// Consumes what the read loop accumulated: a parse moves the
    /// connection on to resolution, any failure — including a head the peer
    /// abandoned — to `Errored`, where nothing is written back.
    pub fn on_head(self, buffer: &str) -> (r: DispatchState)
        requires
            self is Reading,
        ensures
            spec_parse_head(buffer@) matches Ok(rv) ==> (r matches DispatchState::Resolving {
                request,
            } && request@ == rv),
            spec_parse_head(buffer@) matches Err(e) ==> r == (DispatchState::Errored { error: e }),
    {
        match HttpRequest::parse_head(buffer) {
            Ok(request) => DispatchState::Resolving { request },
            Err(error) => DispatchState::Errored { error },
        }
    }

    /// Resolves the request: the first registered endpoint whose pattern
    /// and method set accept it takes the connection to `Executing`; a miss
    /// takes it to `Errored`.
    pub fn on_resolve(self, router: &Router) -> (r: DispatchState)
        requires
            self is Resolving,
        ensures
            self matches DispatchState::Resolving { request } ==> {
                let idx = first_resolution(router@, request@.method, request@.path);
                &&& idx < router@.len() ==> r == (DispatchState::Executing {
                    handler: router@[idx].handler,
                })
                &&& idx == router@.len() ==> r == (DispatchState::Errored {
                    error: AlcazarError::HttpError(HttpError::InternalServerError),
                })
            },
    {
        proof {
            lemma_first_resolution_from(
                router@,
                0,
                match &self {
                    DispatchState::Resolving { request } => request@.method,
                    _ => arbitrary(),
                },
                match &self {
                    DispatchState::Resolving { request } => request@.path,
                    _ => arbitrary(),
                },
            );
        }
        match self {
            DispatchState::Resolving { request } => {
                match router.get_endpoint(request.method(), request.path()) {
                    Ok(endpoint) => DispatchState::Executing { handler: endpoint.handler() },
                    Err(error) => DispatchState::Errored { error },
                }
            },
            _ => unreached(),
        }
    }

    /// Takes the handler's outcome: a status responds as it is, a handler
    /// failure responds as `InternalServerError` rather than aborting the
    /// connection silently.
    pub fn on_handler_outcome(self, outcome: Result<StatusCode, AlcazarError>) -> (r:
        DispatchState)
        requires
            self is Executing,
        ensures
            outcome matches Ok(status) ==> r == (DispatchState::Responding { status }),
            outcome is Err ==> r == (DispatchState::Responding {
                status: StatusCode::InternalServerError,
            }),
    {
        match outcome {
            Ok(status) => DispatchState::Responding { status },
            Err(_) => DispatchState::Responding { status: StatusCode::InternalServerError },
        }
    }

    /// The write finished, well or badly; either way the connection closes,
    /// with no retry on a failed write.
    pub fn on_write_result(self, _success: bool) -> (r: DispatchState)
        requires
            self is Responding,
        ensures
            r is Closed,
    {
        DispatchState::Closed
    }

    /// Releases an errored connection without writing.
    pub fn on_close(self) -> (r: DispatchState)
        requires
            self is Errored,
        ensures
            r is Closed,
    {
        DispatchState::Closed
    }
}

// ---------------------------------------------------------------------------
// The pure route of one connection: parse, then resolve.
// ---------------------------------------------------------------------------

/// The handler reference one connection's bytes lead to, or the error that
/// closes the connection: a function of the route table and those bytes
/// alone.
pub open spec fn spec_route(eps: Seq<EndpointView>, s: Seq<char>) -> Result<u64, AlcazarError> {
    match spec_parse_head(s) {
        Ok(rv) => {
            let idx = first_resolution(eps, rv.method, rv.path);
            if idx < eps.len() {
                Ok(eps[idx].handler)
            } else {
                Err(AlcazarError::HttpError(HttpError::InternalServerError))
            }
        },
        Err(e) => Err(e),
    }
}

/// Parses a connection's bytes and resolves them against the table.
pub fn route_request(router: &Router, buffer: &str) -> (r: Result<u64, AlcazarError>)
    ensures
        r == spec_route(router@, buffer@),
{
    proof {
        match spec_parse_head(buffer@) {
            Ok(rv) => {
                lemma_first_resolution_from(router@, 0, rv.method, rv.path);
            },
            Err(_) => {},
        }
    }
    match HttpRequest::parse_head(buffer) {
        Ok(request) => {
            match router.get_endpoint(request.method(), request.path()) {
                Ok(endpoint) => Ok(endpoint.handler()),
                Err(error) => Err(error),
            }
        },
        Err(error) => Err(error),
    }
}

/// The outcomes of many connections against one table.
pub open spec fn spec_route_all(eps: Seq<EndpointView>, bufs: Seq<Seq<char>>) -> Seq<
    Result<u64, AlcazarError>,
> {
    bufs.map_values(|b: Seq<char>| spec_route(eps, b))
}

/// Connections are independent: in a batch of concurrent connections
/// against one shared table, each connection's outcome is exactly the
/// outcome of routing its own bytes alone — no connection's bytes enter
/// another's resolution.  (That the shared table itself cannot change under
/// them is the table's own invariant: every dispatch step borrows it
/// immutably.)
pub proof fn lemma_connection_isolation(eps: Seq<EndpointView>, bufs: Seq<Seq<char>>, i: int)
    requires
        0 <= i < bufs.len(),
    ensures
        spec_route_all(eps, bufs)[i] == spec_route(eps, bufs[i]),
{
}

} // verus!
