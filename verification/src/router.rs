use vstd::prelude::*;
use crate::error::AlcazarError;
use crate::error::HttpError;
use crate::routing::endpoint::Endpoint;
use crate::routing::endpoint::EndpointView;
use crate::routing::endpoint::MethodType;
use crate::routing::pattern::is_space_char;
use crate::routing::pattern::lemma_space_run_end;
use crate::routing::pattern::pattern_matches;
use crate::routing::pattern::space_char;
use crate::routing::pattern::space_run_end;
use crate::routing::pattern::spec_compile;
use vstd::string::StrSliceExecFns;

verus! {

// ---------------------------------------------------------------------------
// Method tokens as the registration surface takes them: trimmed, any case.
// ---------------------------------------------------------------------------

/// Position after which only trailing whitespace follows.
pub open spec fn trim_last(s: Seq<char>, j: int) -> int
    decreases j,
        when 0 <= j <= s.len()
{
    if j <= 0 {
        0
    } else if is_space_char(s[j - 1]) {
        trim_last(s, j - 1)
    } else {
        j
    }
}

pub proof fn lemma_trim_last(s: Seq<char>, j: int)
    requires
        0 <= j <= s.len(),
    ensures
        0 <= trim_last(s, j) <= j,
        forall|q: int| trim_last(s, j) <= q < j ==> is_space_char(s[q]),
        trim_last(s, j) > 0 ==> !is_space_char(s[trim_last(s, j) - 1]),
    decreases j,
{
    if j > 0 && is_space_char(s[j - 1]) {
        lemma_trim_last(s, j - 1);
    }
}

/// The token with leading and trailing whitespace removed.
pub open spec fn trim_spec(s: Seq<char>) -> Seq<char> {
    let a = space_run_end(s, 0);
    let b = trim_last(s, s.len() as int);
    if a <= b {
        s.subrange(a, b)
    } else {
        Seq::empty()
    }
}

/// A character's code with an ASCII lowercase letter folded to uppercase.
pub open spec fn upper_code(c: char) -> int {
    if 'a' as u32 <= c as u32 <= 'z' as u32 {
        c as u32 - 32
    } else {
        c as u32 as int
    }
}

/// Equality up to ASCII case.
pub open spec fn ci_eq(a: Seq<char>, b: Seq<char>) -> bool {
    a.len() == b.len() && forall|i: int| 0 <= i < a.len() ==> upper_code(a[i]) == upper_code(b[i])
}

/// The method a registration token names: the token is trimmed and read
/// without regard to ASCII case, so `" get "` registers `GET`.
pub open spec fn spec_registration_method(s: Seq<char>) -> Option<MethodType> {
    let w = trim_spec(s);
    if ci_eq(w, ("POST")@) {
        Some(MethodType::POST)
    } else if ci_eq(w, ("GET")@) {
        Some(MethodType::GET)
    } else if ci_eq(w, ("PATCH")@) {
        Some(MethodType::PATCH)
    } else if ci_eq(w, ("DELETE")@) {
        Some(MethodType::DELETE)
    } else if ci_eq(w, ("CONNECT")@) {
        Some(MethodType::CONNECT)
    } else if ci_eq(w, ("OPTIONS")@) {
        Some(MethodType::OPTIONS)
    } else if ci_eq(w, ("TRACE")@) {
        Some(MethodType::TRACE)
    } else if ci_eq(w, ("HEAD")@) {
        Some(MethodType::HEAD)
    } else {
        None
    }
}

/// The methods a registration list yields, from position `i` on; a token
/// outside the vocabulary is skipped.
pub open spec fn spec_registration_methods_from(ms: Seq<&str>, i: int) -> Seq<MethodType>
    decreases ms.len() - i,
        when 0 <= i <= ms.len()
{
    if i >= ms.len() {
        Seq::empty()
    } else {
        match spec_registration_method(ms[i]@) {
            Some(m) => seq![m] + spec_registration_methods_from(ms, i + 1),
            None => spec_registration_methods_from(ms, i + 1),
        }
    }
}

/// The methods a registration list yields, in order.
pub open spec fn spec_registration_methods(ms: Seq<&str>) -> Seq<MethodType> {
    spec_registration_methods_from(ms, 0)
}

fn upper_code_exec(c: char) -> (r: u32)
    ensures
        r == upper_code(c),
{
    let u = c as u32;
    if 'a' as u32 <= u && u <= 'z' as u32 {
        u - 32
    } else {
        u
    }
}

/// Bounds of the token once whitespace is trimmed from both ends.
#[verifier::loop_isolation(false)]
fn trim_bounds(s: &str) -> (r: (usize, usize))
    ensures
        r.0 == space_run_end(s@, 0),
        r.1 == trim_last(s@, s@.len() as int),
        r.0 <= s@.len(),
        r.1 <= s@.len(),
{
    proof {
        lemma_space_run_end(s@, 0);
        lemma_trim_last(s@, s@.len() as int);
    }
    let n = s.unicode_len();
    let mut a: usize = 0;
    while a < n && space_char(s.get_char(a))
        invariant
            a <= n,
            space_run_end(s@, 0) == space_run_end(s@, a as int),
        decreases n - a,
    {
        a = a + 1;
    }
    let mut b: usize = n;
    while b > 0 && space_char(s.get_char(b - 1))
        invariant
            b <= n,
            trim_last(s@, n as int) == trim_last(s@, b as int),
        decreases b,
    {
        b = b - 1;
    }
    (a, b)
}

/// Case-insensitive comparison of `s[lo..hi]` with a vocabulary word.
#[verifier::loop_isolation(false)]
fn ci_eq_range(s: &str, lo: usize, hi: usize, w: &str) -> (r: bool)
    requires
        lo <= hi <= s@.len(),
    ensures
        r == ci_eq(s@.subrange(lo as int, hi as int), w@),
{
    let wl = w.unicode_len();
    if hi - lo != wl {
        return false;
    }
    let mut i: usize = 0;
    while i < wl
        invariant
            i <= wl,
            forall|q: int|
                0 <= q < i ==> upper_code(s@.subrange(lo as int, hi as int)[q]) == upper_code(
                    w@[q],
                ),
        decreases wl - i,
    {
        let cs = upper_code_exec(s.get_char(lo + i));
        let cw = upper_code_exec(w.get_char(i));
        proof {
            assert(s@.subrange(lo as int, hi as int)[i as int] == s@[lo + i]);
        }
        if cs != cw {
            return false;
        }
        i = i + 1;
    }
    true
}

/// Reads one registration token.
fn parse_registration_method(tok: &str) -> (r: Option<MethodType>)
    ensures
        r == spec_registration_method(tok@),
{
    proof {
        reveal_strlit("POST");
        reveal_strlit("GET");
        reveal_strlit("PATCH");
        reveal_strlit("DELETE");
        reveal_strlit("CONNECT");
        reveal_strlit("OPTIONS");
        reveal_strlit("TRACE");
        reveal_strlit("HEAD");
    }
    let (a, b) = trim_bounds(tok);
    if a > b {
        proof {
            assert(trim_spec(tok@) == Seq::<char>::empty());
        }
        return None;
    }
    proof {
        assert(trim_spec(tok@) == tok@.subrange(a as int, b as int));
    }
    if ci_eq_range(tok, a, b, "POST") {
        Some(MethodType::POST)
    } else if ci_eq_range(tok, a, b, "GET") {
        Some(MethodType::GET)
    } else if ci_eq_range(tok, a, b, "PATCH") {
        Some(MethodType::PATCH)
    } else if ci_eq_range(tok, a, b, "DELETE") {
        Some(MethodType::DELETE)
    } else if ci_eq_range(tok, a, b, "CONNECT") {
        Some(MethodType::CONNECT)
    } else if ci_eq_range(tok, a, b, "OPTIONS") {
        Some(MethodType::OPTIONS)
    } else if ci_eq_range(tok, a, b, "TRACE") {
        Some(MethodType::TRACE)
    } else if ci_eq_range(tok, a, b, "HEAD") {
        Some(MethodType::HEAD)
    } else {
        None
    }
}

// ---------------------------------------------------------------------------
// The route table.
// ---------------------------------------------------------------------------

/// Whether the endpoint at `j` resolves the request: its pattern accepts the
/// path and its method set holds the method.
pub open spec fn resolves_at(
    eps: Seq<EndpointView>,
    j: int,
    m: MethodType,
    path: Seq<char>,
) -> bool
    recommends
        0 <= j < eps.len(),
{
    pattern_matches(eps[j].pattern, path) && eps[j].methods.contains(m)
}

/// First index at or after `j` whose endpoint resolves the request;
/// `eps.len()` when none does.
pub open spec fn first_resolution_from(
    eps: Seq<EndpointView>,
    j: int,
    m: MethodType,
    path: Seq<char>,
) -> int
    decreases eps.len() - j,
        when 0 <= j <= eps.len()
{
    if j >= eps.len() {
        j
    } else if resolves_at(eps, j, m, path) {
        j
    } else {
        first_resolution_from(eps, j + 1, m, path)
    }
}

/// The index resolution picks: the first registered endpoint that resolves
/// the request.
pub open spec fn first_resolution(eps: Seq<EndpointView>, m: MethodType, path: Seq<char>) -> int {
    first_resolution_from(eps, 0, m, path)
}

pub proof fn lemma_first_resolution_from(
    eps: Seq<EndpointView>,
    j: int,
    m: MethodType,
    path: Seq<char>,
)
    requires
        0 <= j <= eps.len(),
    ensures
        j <= first_resolution_from(eps, j, m, path) <= eps.len(),
        forall|q: int|
            j <= q < first_resolution_from(eps, j, m, path) ==> !resolves_at(eps, q, m, path),
        first_resolution_from(eps, j, m, path) < eps.len() ==> resolves_at(
            eps,
            first_resolution_from(eps, j, m, path),
            m,
            path,
        ),
    decreases eps.len() - j,
{
    if j < eps.len() && !resolves_at(eps, j, m, path) {
        lemma_first_resolution_from(eps, j + 1, m, path);
    }
}

/// The ordered route table.  It is filled while the server is configured and
/// read-only from the moment connections are dispatched against it, so every
/// connection may share one table without locking.
#[derive(Debug)]
pub struct Router {
    endpoints: Vec<Endpoint>,
}

impl View for Router {
    type V = Seq<EndpointView>;

    closed spec fn view(&self) -> Seq<EndpointView> {
        self.endpoints@.map_values(|e: Endpoint| e@)
    }
}

impl Default for Router {
    /// An empty route table.
    fn default() -> (r: Self)
        ensures
            r@ == Seq::<EndpointView>::empty(),
    {
        let r = Router { endpoints: Vec::new() };
        proof {
            assert(r@ =~= Seq::<EndpointView>::empty());
        }
        r
    }
}

impl Router {
    /// An empty route table.
    pub fn new() -> (r: Self)
        ensures
            r@ == Seq::<EndpointView>::empty(),
    {
        Router::default()
    }

    /// The registered endpoints, in registration order.
    pub fn endpoints(&self) -> (r: &Vec<Endpoint>)
        ensures
            r@.map_values(|e: Endpoint| e@) == self@,
    {
        &self.endpoints
    }

    /// Registers a route: the method tokens are read leniently, the template
    /// is compiled, and a template the compiler rejects leaves the table as
    /// it was — a rejected route never reaches request time.
    #[verifier::loop_isolation(false)]
    pub fn with_endpoint(self, path: &str, methods: &[&str], handler: u64) -> (r: Self)
        ensures
            spec_compile(path@) matches Ok(pv) ==> r@ == self@.push(
                (EndpointView {
                    pattern: pv,
                    methods: spec_registration_methods(methods@),
                    handler,
                }),
            ),
            spec_compile(path@) is Err ==> r@ == self@,
    {
        let ghost ms = methods@;
        let mut acceptable: Vec<MethodType> = Vec::new();
        let mut idx: usize = 0;
        while idx < methods.len()
            invariant
                idx <= ms.len(),
                spec_registration_methods_from(ms, 0) == acceptable@
                    + spec_registration_methods_from(ms, idx as int),
            decreases ms.len() - idx,
        {
            let tok: &str = methods[idx];
            match parse_registration_method(tok) {
                Some(m) => {
                    proof {
                        assert(acceptable@ + (seq![m] + spec_registration_methods_from(
                            ms,
                            idx + 1,
                        )) =~= acceptable@.push(m) + spec_registration_methods_from(ms, idx + 1));
                    }
                    acceptable.push(m);
                },
                None => {},
            }
            idx = idx + 1;
        }
        proof {
            assert(acceptable@ + Seq::<MethodType>::empty() =~= acceptable@);
        }
        let ghost accepted = acceptable@;
        let mut me = self;
        match Endpoint::new(path, acceptable, handler) {
            Ok(endpoint) => {
                proof {
                    assert(me.endpoints@.push(endpoint).map_values(|e: Endpoint| e@)
                        =~= me.endpoints@.map_values(|e: Endpoint| e@).push(endpoint@));
                }
                me.endpoints.push(endpoint);
            },
            Err(_) => {
                // The route is rejected; the server can still start with the
                // remaining routes.
            },
        }
        me
    }

    /// Appends another table's routes after this table's own.
    #[verifier::loop_isolation(false)]
    pub fn merge(self, router: &Router) -> (r: Self)
        ensures
            r@ == self@ + router@,
    {
        let ghost orig = self@;
        let mut me = self;
        let mut i: usize = 0;
        while i < router.endpoints.len()
            invariant
                i <= router.endpoints@.len(),
                me@ == orig + router@.subrange(0, i as int),
            decreases router.endpoints@.len() - i,
        {
            let ep = router.endpoints[i].clone();
            proof {
                assert(router@[i as int] == router.endpoints@[i as int]@);
                assert(me.endpoints@.push(ep).map_values(|e: Endpoint| e@)
                    =~= me.endpoints@.map_values(|e: Endpoint| e@).push(ep@));
                assert((orig + router@.subrange(0, i as int)).push(router@[i as int]) =~= orig
                    + router@.subrange(0, i + 1 as int));
            }
            me.endpoints.push(ep);
            i = i + 1;
        }
        proof {
            assert(router@.subrange(0, router@.len() as int) =~= router@);
        }
        me
    }

    /// Resolves a request to the first registered endpoint whose pattern
    /// accepts the path and whose method set holds the method; scanning is in
    /// registration order, with no specificity ranking.  A request no
    /// endpoint resolves is the http-semantic `InternalServerError`.
    #[verifier::loop_isolation(false)]
    pub fn get_endpoint(&self, method: MethodType, path: &str) -> (r: Result<
        &Endpoint,
        AlcazarError,
    >)
        ensures
            first_resolution(self@, method, path@) < self@.len() ==> (r matches Ok(ep) && ep@
                == self@[first_resolution(self@, method, path@)]),
            first_resolution(self@, method, path@) == self@.len() ==> r == Err::<
                &Endpoint,
                AlcazarError,
            >(AlcazarError::HttpError(HttpError::InternalServerError)),
    {
        let ghost eps = self@;
        let n = self.endpoints.len();
        let mut i: usize = 0;
        while i < n
            invariant
                i <= n,
                first_resolution_from(eps, 0, method, path@) == first_resolution_from(
                    eps,
                    i as int,
                    method,
                    path@,
                ),
            decreases n - i,
        {
            let ep = &self.endpoints[i];
            proof {
                assert(eps[i as int] == self.endpoints@[i as int]@);
            }
            let hit = ep.pattern().is_match(path);
            if hit && contains_method(ep.methods(), method) {
                proof {
                    assert(resolves_at(eps, i as int, method, path@));
                }
                return Ok(ep);
            }
            proof {
                assert(!resolves_at(eps, i as int, method, path@));
            }
            i = i + 1;
        }
        Err(AlcazarError::HttpError(HttpError::InternalServerError))
    }
}

impl Clone for Router {
    /// A clone carries the same endpoints in the same order; handing every
    /// connection its own copy or a shared reference reads the same table.
    fn clone(&self) -> (r: Self)
        ensures
            r@ == self@,
    {
        let fresh = Router::new();
        let r = fresh.merge(self);
        proof {
            assert(Seq::<EndpointView>::empty() + self@ =~= self@);
        }
        r
    }
}

/// Whether the method set holds the method.
#[verifier::loop_isolation(false)]
fn contains_method(methods: &Vec<MethodType>, m: MethodType) -> (r: bool)
    ensures
        r == methods@.contains(m),
{
    let mut i: usize = 0;
    while i < methods.len()
        invariant
            i <= methods@.len(),
            forall|q: int| 0 <= q < i ==> methods@[q] != m,
        decreases methods@.len() - i,
    {
        if methods[i] == m {
            proof {
                assert(methods@[i as int] == m);
            }
            return true;
        }
        i = i + 1;
    }
    false
}

} // verus!
