use vstd::prelude::*;
use crate::error::AlcazarError;
use crate::error::RoutingError;
use crate::text::has_char;

verus! {

// ---------------------------------------------------------------------------
// Character classes of the template grammar.
// ---------------------------------------------------------------------------

/// Characters a parameter identifier is made of.
pub open spec fn is_word_char(c: char) -> bool {
    ||| 'a' as u32 <= c as u32 <= 'z' as u32
    ||| 'A' as u32 <= c as u32 <= 'Z' as u32
    ||| '0' as u32 <= c as u32 <= '9' as u32
    ||| c == '_'
}

/// Whitespace tolerated, but not accepted, inside a brace token: a token
/// such as `{ id }` scans as a token and is then rejected as invalid.
pub open spec fn is_space_char(c: char) -> bool {
    c == ' ' || c == '\t' || c == '\n' || c == '\r' || c == '\u{b}' || c == '\u{c}'
}

/// Characters a parameter capture absorbs: anything but a slash or a brace,
/// so a parameter never crosses a path-segment boundary.
pub open spec fn is_param_char(c: char) -> bool {
    c != '/' && c != '{' && c != '}'
}

/// Whether the fragment holds a stray brace.
pub open spec fn has_brace(s: Seq<char>) -> bool {
    has_char(s, '{') || has_char(s, '}')
}

// ---------------------------------------------------------------------------
// Scanning a template into tokens: the specification-level model.
// ---------------------------------------------------------------------------

/// End of the run of whitespace starting at `i`.
pub open spec fn space_run_end(s: Seq<char>, i: int) -> int
    decreases s.len() - i,
        when 0 <= i <= s.len()
{
    if i >= s.len() {
        i
    } else if is_space_char(s[i]) {
        space_run_end(s, i + 1)
    } else {
        i
    }
}

/// End of the run of identifier characters starting at `i`.
pub open spec fn word_run_end(s: Seq<char>, i: int) -> int
    decreases s.len() - i,
        when 0 <= i <= s.len()
{
    if i >= s.len() {
        i
    } else if is_word_char(s[i]) {
        word_run_end(s, i + 1)
    } else {
        i
    }
}

pub proof fn lemma_space_run_end(s: Seq<char>, i: int)
    requires
        0 <= i <= s.len(),
    ensures
        i <= space_run_end(s, i) <= s.len(),
        forall|j: int| i <= j < space_run_end(s, i) ==> is_space_char(s[j]),
        space_run_end(s, i) < s.len() ==> !is_space_char(s[space_run_end(s, i)]),
    decreases s.len() - i,
{
    if i < s.len() && is_space_char(s[i]) {
        lemma_space_run_end(s, i + 1);
    }
}

pub proof fn lemma_word_run_end(s: Seq<char>, i: int)
    requires
        0 <= i <= s.len(),
    ensures
        i <= word_run_end(s, i) <= s.len(),
        forall|j: int| i <= j < word_run_end(s, i) ==> is_word_char(s[j]),
        word_run_end(s, i) < s.len() ==> !is_word_char(s[word_run_end(s, i)]),
    decreases s.len() - i,
{
    if i < s.len() && is_word_char(s[i]) {
        lemma_word_run_end(s, i + 1);
    }
}

/// Where the brace token opened at `i` ends (exclusive), if one scans there:
/// `{`, optional spaces, at least one identifier character, optional spaces,
/// `}`.  Greedy runs are exact here, since identifier characters, whitespace
/// and `}` are pairwise disjoint.
pub open spec fn token_end(s: Seq<char>, i: int) -> Option<int>
    recommends
        0 <= i < s.len(),
        s[i] == '{',
{
    let j = space_run_end(s, i + 1);
    let k = word_run_end(s, j);
    if k == j {
        None
    } else {
        let l = space_run_end(s, k);
        if l < s.len() && s[l] == '}' {
            Some(l + 1)
        } else {
            None
        }
    }
}

/// The identifier inside the brace token opened at `i`.
pub open spec fn token_name(s: Seq<char>, i: int) -> Seq<char>
    recommends
        0 <= i < s.len(),
        s[i] == '{',
{
    let j = space_run_end(s, i + 1);
    s.subrange(j, word_run_end(s, j))
}

/// A token in the strict form `{identifier}`, with no whitespace.  Only these
/// compile to parameters; a spaced token is reported as an invalid fragment.
pub open spec fn token_is_strict(s: Seq<char>, i: int) -> bool
    recommends
        0 <= i < s.len(),
        s[i] == '{',
{
    let j = space_run_end(s, i + 1);
    let k = word_run_end(s, j);
    j == i + 1 && space_run_end(s, k) == k
}

pub proof fn lemma_token_end_bounds(s: Seq<char>, i: int)
    requires
        0 <= i < s.len(),
        token_end(s, i) is Some,
    ensures
        i + 2 < token_end(s, i)->0 <= s.len(),
{
    lemma_space_run_end(s, i + 1);
    lemma_word_run_end(s, space_run_end(s, i + 1));
    lemma_space_run_end(s, word_run_end(s, space_run_end(s, i + 1)));
}

/// First position at or after `i` where a brace token scans; `s.len()` when
/// none does.
pub open spec fn next_token_pos(s: Seq<char>, i: int) -> int
    decreases s.len() - i,
        when 0 <= i <= s.len()
{
    if i >= s.len() {
        i
    } else if s[i] == '{' && token_end(s, i) is Some {
        i
    } else {
        next_token_pos(s, i + 1)
    }
}

pub proof fn lemma_next_token_pos(s: Seq<char>, i: int)
    requires
        0 <= i <= s.len(),
    ensures
        i <= next_token_pos(s, i) <= s.len(),
        forall|j: int|
            i <= j < next_token_pos(s, i) ==> !(s[j] == '{' && token_end(s, j) is Some),
        next_token_pos(s, i) < s.len() ==> s[next_token_pos(s, i)] == '{' && token_end(
            s,
            next_token_pos(s, i),
        ) is Some,
    decreases s.len() - i,
{
    if i < s.len() && !(s[i] == '{' && token_end(s, i) is Some) {
        lemma_next_token_pos(s, i + 1);
    }
}

/// A compiled token: a literal matched verbatim, or a named parameter.
pub enum TokenView {
    Literal(Seq<char>),
    Parameter(Seq<char>),
}

/// How a template scans into tokens, from position `i` on: alternate literal
/// chunks and brace tokens.  A chunk holding a stray brace, or a spaced brace
/// token, is the offending fragment the scan reports.
pub open spec fn scan_tokens(s: Seq<char>, i: int) -> Result<Seq<TokenView>, Seq<char>>
    decreases s.len() - i,
        when 0 <= i <= s.len()
{
    let p = next_token_pos(s, i);
    let chunk = s.subrange(i, p);
    if has_brace(chunk) {
        Err(chunk)
    } else if p >= s.len() {
        Ok(
            if chunk.len() > 0 {
                seq![TokenView::Literal(chunk)]
            } else {
                Seq::empty()
            },
        )
    } else {
        proof {
            lemma_next_token_pos(s, i);
            lemma_token_end_bounds(s, p);
        }
        let end = token_end(s, p)->0;
        if token_is_strict(s, p) {
            match scan_tokens(s, end) {
                Ok(rest) => Ok(
                    (if chunk.len() > 0 {
                        seq![TokenView::Literal(chunk)]
                    } else {
                        Seq::empty()
                    }) + seq![TokenView::Parameter(token_name(s, p))] + rest,
                ),
                Err(part) => Err(part),
            }
        } else {
            Err(s.subrange(p, end))
        }
    }
}

/// The parameter names of a token sequence, in order.
pub open spec fn token_names(toks: Seq<TokenView>) -> Seq<Seq<char>>
    decreases toks.len(),
{
    if toks.len() == 0 {
        Seq::empty()
    } else {
        match toks[0] {
            TokenView::Parameter(n) => seq![n] + token_names(toks.drop_first()),
            TokenView::Literal(_) => token_names(toks.drop_first()),
        }
    }
}

/// Whether `names[j]` repeats an earlier name.
pub open spec fn dup_at(names: Seq<Seq<char>>, j: int) -> bool {
    exists|i: int| 0 <= i < j && names[i] == names[j]
}

/// First index that repeats an earlier name; `names.len()` when all names are
/// distinct.
pub open spec fn first_dup_from(names: Seq<Seq<char>>, j: int) -> int
    decreases names.len() - j,
        when 0 <= j <= names.len()
{
    if j >= names.len() {
        j
    } else if dup_at(names, j) {
        j
    } else {
        first_dup_from(names, j + 1)
    }
}

pub proof fn lemma_first_dup_from(names: Seq<Seq<char>>, j: int)
    requires
        0 <= j <= names.len(),
    ensures
        j <= first_dup_from(names, j) <= names.len(),
        forall|i: int| j <= i < first_dup_from(names, j) ==> !dup_at(names, i),
        first_dup_from(names, j) < names.len() ==> dup_at(names, first_dup_from(names, j)),
    decreases names.len() - j,
{
    if j < names.len() && !dup_at(names, j) {
        lemma_first_dup_from(names, j + 1);
    }
}

// ---------------------------------------------------------------------------
// The compiled pattern and its matching relation.
// ---------------------------------------------------------------------------

/// Model of a compiled pattern.
pub enum PatternView {
    Static(Seq<char>),
    Dynamic(Seq<TokenView>),
}

/// Why a template fails to compile.
pub enum CompileFault {
    /// A fragment holds a brace outside a well-formed token.
    Invalid(Seq<char>),
    /// A parameter name is declared twice.
    Duplicate(Seq<char>),
}

/// What compiling a template yields.  A template without both an opening and
/// a closing brace is taken verbatim as a static pattern.
pub open spec fn spec_compile(t: Seq<char>) -> Result<PatternView, CompileFault> {
    if !(has_char(t, '{') && has_char(t, '}')) {
        Ok(PatternView::Static(t))
    } else {
        match scan_tokens(t, 0) {
            Err(part) => Err(CompileFault::Invalid(part)),
            Ok(toks) => {
                let names = token_names(toks);
                let d = first_dup_from(names, 0);
                if d < names.len() {
                    Err(CompileFault::Duplicate(names[d]))
                } else {
                    Ok(PatternView::Dynamic(toks))
                }
            },
        }
    }
}

/// The first `k` characters of `s` are all parameter characters.
pub open spec fn param_run(s: Seq<char>, k: int) -> bool {
    forall|i: int| 0 <= i < k ==> is_param_char(s[i])
}

/// The anchored matching relation: the whole of `s` is consumed, literals
/// verbatim, each parameter absorbing one or more parameter characters.
pub open spec fn toks_match(toks: Seq<TokenView>, s: Seq<char>) -> bool
    decreases toks.len(),
{
    if toks.len() == 0 {
        s.len() == 0
    } else {
        match toks[0] {
            TokenView::Literal(l) => {
                &&& l.len() <= s.len()
                &&& s.subrange(0, l.len() as int) == l
                &&& toks_match(toks.drop_first(), s.skip(l.len() as int))
            },
            TokenView::Parameter(_) => exists|k: int|
                1 <= k <= s.len() && #[trigger] param_run(s, k) && toks_match(
                    toks.drop_first(),
                    s.skip(k),
                ),
        }
    }
}

/// Whether a compiled pattern accepts a request path.
pub open spec fn pattern_matches(p: PatternView, s: Seq<char>) -> bool {
    match p {
        PatternView::Static(t) => s == t,
        PatternView::Dynamic(toks) => toks_match(toks, s),
    }
}

// ---------------------------------------------------------------------------
// The executable pattern.
// ---------------------------------------------------------------------------

/// A token of a compiled dynamic pattern.
#[derive(Debug)]
pub enum PatternToken {
    Literal(String),
    Parameter(String),
}

impl View for PatternToken {
    type V = TokenView;

    open spec fn view(&self) -> TokenView {
        match self {
            PatternToken::Literal(s) => TokenView::Literal(s@),
            PatternToken::Parameter(s) => TokenView::Parameter(s@),
        }
    }
}

/// The models of a token sequence.
pub open spec fn token_views(toks: Seq<PatternToken>) -> Seq<TokenView> {
    toks.map_values(|t: PatternToken| t@)
}

/// A compiled path pattern: an exact string, or a token sequence compiled
/// from a template with parameters.
#[derive(Debug)]
pub enum PatternType {
    Static(String),
    Dynamic(Vec<PatternToken>),
}

impl View for PatternType {
    type V = PatternView;

    open spec fn view(&self) -> PatternView {
        match self {
            PatternType::Static(s) => PatternView::Static(s@),
            PatternType::Dynamic(toks) => PatternView::Dynamic(token_views(toks@)),
        }
    }
}

impl Clone for PatternToken {
    /// A clone carries the same model.
    fn clone(&self) -> (r: Self)
        ensures
            r@ == self@,
    {
        match self {
            PatternToken::Literal(s) => PatternToken::Literal(s.clone()),
            PatternToken::Parameter(s) => PatternToken::Parameter(s.clone()),
        }
    }
}

fn clone_tokens(toks: &Vec<PatternToken>) -> (r: Vec<PatternToken>)
    ensures
        token_views(r@) == token_views(toks@),
{
    let mut out: Vec<PatternToken> = Vec::new();
    let mut i: usize = 0;
    while i < toks.len()
        invariant
            i <= toks@.len(),
            token_views(out@) == token_views(toks@.subrange(0, i as int)),
        decreases toks@.len() - i,
    {
        let t = toks[i].clone();
        proof {
            assert(token_views(out@.push(t)) =~= token_views(out@).push(t@));
            assert(token_views(toks@.subrange(0, i + 1 as int)) =~= token_views(
                toks@.subrange(0, i as int),
            ).push(toks@[i as int]@));
        }
        out.push(t);
        i = i + 1;
    }
    proof {
        assert(toks@.subrange(0, toks@.len() as int) =~= toks@);
    }
    out
}

impl Clone for PatternType {
    /// A clone carries the same model.
    fn clone(&self) -> (r: Self)
        ensures
            r@ == self@,
    {
        match self {
            PatternType::Static(s) => PatternType::Static(s.clone()),
            PatternType::Dynamic(toks) => PatternType::Dynamic(clone_tokens(toks)),
        }
    }
}

// ---------------------------------------------------------------------------
// Executable scanning helpers, each tied to its specification counterpart.
// ---------------------------------------------------------------------------

fn word_char(c: char) -> (r: bool)
    ensures
        r == is_word_char(c),
{
    let u = c as u32;
    ('a' as u32 <= u && u <= 'z' as u32) || ('A' as u32 <= u && u <= 'Z' as u32) || ('0' as u32
        <= u && u <= '9' as u32) || c == '_'
}

pub(crate) fn space_char(c: char) -> (r: bool)
    ensures
        r == is_space_char(c),
{
    c == ' ' || c == '\t' || c == '\n' || c == '\r' || c == '\u{b}' || c == '\u{c}'
}

fn param_char(c: char) -> (r: bool)
    ensures
        r == is_param_char(c),
{
    c != '/' && c != '{' && c != '}'
}

#[verifier::loop_isolation(false)]
fn space_end(s: &str, i: usize) -> (r: usize)
    requires
        i <= s@.len(),
    ensures
        r == space_run_end(s@, i as int),
        i <= r <= s@.len(),
{
    proof {
        lemma_space_run_end(s@, i as int);
    }
    let n = s.unicode_len();
    let mut j = i;
    while j < n && space_char(s.get_char(j))
        invariant
            i <= j <= n,
            space_run_end(s@, i as int) == space_run_end(s@, j as int),
        decreases n - j,
    {
        j = j + 1;
    }
    j
}

#[verifier::loop_isolation(false)]
fn word_end(s: &str, i: usize) -> (r: usize)
    requires
        i <= s@.len(),
    ensures
        r == word_run_end(s@, i as int),
        i <= r <= s@.len(),
{
    proof {
        lemma_word_run_end(s@, i as int);
    }
    let n = s.unicode_len();
    let mut j = i;
    while j < n && word_char(s.get_char(j))
        invariant
            i <= j <= n,
            word_run_end(s@, i as int) == word_run_end(s@, j as int),
        decreases n - j,
    {
        j = j + 1;
    }
    j
}

/// Scans the brace token opened at `i`; yields the identifier's bounds and
/// the token's end.
#[verifier::loop_isolation(false)]
fn token_at(s: &str, i: usize) -> (r: Option<(usize, usize, usize)>)
    requires
        i < s@.len(),
        s@[i as int] == '{',
    ensures
        r is Some <==> token_end(s@, i as int) is Some,
        r matches Some(t) ==> {
            &&& t.0 == space_run_end(s@, i as int + 1)
            &&& t.1 == word_run_end(s@, t.0 as int)
            &&& token_end(s@, i as int) == Some(t.2 as int)
        },
{
    let n = s.unicode_len();
    let j = space_end(s, i + 1);
    let k = word_end(s, j);
    if k == j {
        return None;
    }
    let l = space_end(s, k);
    if l < n && s.get_char(l) == '}' {
        Some((j, k, l + 1))
    } else {
        None
    }
}

/// First position at or after `from` where a brace token scans, with the
/// token's bounds when one does.
#[verifier::loop_isolation(false)]
fn next_token_start(s: &str, from: usize) -> (r: (usize, Option<(usize, usize, usize)>))
    requires
        from <= s@.len(),
    ensures
        r.0 == next_token_pos(s@, from as int),
        from <= r.0 <= s@.len(),
        r.0 == s@.len() ==> r.1 is None,
        r.0 < s@.len() ==> {
            &&& s@[r.0 as int] == '{'
            &&& r.1 matches Some(t) && t.0 == space_run_end(s@, r.0 as int + 1) && t.1
                == word_run_end(s@, t.0 as int) && token_end(s@, r.0 as int) == Some(t.2 as int)
        },
{
    let n = s.unicode_len();
    let mut p = from;
    while p < n
        invariant
            from <= p <= n,
            next_token_pos(s@, from as int) == next_token_pos(s@, p as int),
        decreases n - p,
    {
        if s.get_char(p) == '{' {
            let t = token_at(s, p);
            if let Some(tt) = t {
                return (p, Some(tt));
            }
        }
        p = p + 1;
    }
    (n, None)
}

/// Whether `s[i..p]` holds a brace.
#[verifier::loop_isolation(false)]
fn range_has_brace(s: &str, i: usize, p: usize) -> (r: bool)
    requires
        i <= p <= s@.len(),
    ensures
        r == has_brace(s@.subrange(i as int, p as int)),
{
    let mut j = i;
    while j < p
        invariant
            i <= j <= p,
            forall|q: int| i <= q < j ==> s@[q] != '{' && s@[q] != '}',
        decreases p - j,
    {
        let c = s.get_char(j);
        if c == '{' || c == '}' {
            proof {
                assert(s@.subrange(i as int, p as int)[j - i] == s@[j as int]);
            }
            return true;
        }
        j = j + 1;
    }
    proof {
        assert forall|q: int| 0 <= q < p - i implies s@.subrange(i as int, p as int)[q] != '{'
            && s@.subrange(i as int, p as int)[q] != '}' by {
            assert(s@.subrange(i as int, p as int)[q] == s@[i + q]);
        }
    }
    false
}

// ---------------------------------------------------------------------------
// Step lemmas for the matching relation, in absolute indices.
// ---------------------------------------------------------------------------

/// Matching from token `ti` on, against the path from `si` on.
pub open spec fn tail_match(tv: Seq<TokenView>, ti: int, s: Seq<char>, si: int) -> bool
    recommends
        0 <= ti <= tv.len(),
        0 <= si <= s.len(),
{
    toks_match(tv.skip(ti), s.skip(si))
}

proof fn lemma_tail_match_done(tv: Seq<TokenView>, s: Seq<char>, si: int)
    requires
        0 <= si <= s.len(),
    ensures
        tail_match(tv, tv.len() as int, s, si) <==> si == s.len(),
{
    assert(tv.skip(tv.len() as int) =~= Seq::empty());
    assert(s.skip(si).len() == s.len() - si);
}

proof fn lemma_tail_match_literal(tv: Seq<TokenView>, ti: int, s: Seq<char>, si: int, l: Seq<char>)
    requires
        0 <= ti < tv.len(),
        0 <= si <= s.len(),
        tv[ti] == TokenView::Literal(l),
    ensures
        tail_match(tv, ti, s, si) <==> {
            &&& si + l.len() <= s.len()
            &&& s.subrange(si, si + l.len() as int) == l
            &&& tail_match(tv, ti + 1, s, si + l.len() as int)
        },
{
    assert(tv.skip(ti)[0] == tv[ti]);
    assert(tv.skip(ti).drop_first() =~= tv.skip(ti + 1));
    if l.len() <= s.skip(si).len() {
        assert(s.skip(si).subrange(0, l.len() as int) =~= s.subrange(si, si + l.len() as int));
        assert(s.skip(si).skip(l.len() as int) =~= s.skip(si + l.len() as int));
    }
}

proof fn lemma_tail_match_parameter(tv: Seq<TokenView>, ti: int, s: Seq<char>, si: int)
    requires
        0 <= ti < tv.len(),
        0 <= si <= s.len(),
        tv[ti] is Parameter,
    ensures
        tail_match(tv, ti, s, si) <==> exists|k: int|
            si < k <= s.len() && #[trigger] absolute_param_run(s, si, k) && tail_match(
                tv,
                ti + 1,
                s,
                k,
            ),
{
    assert(tv.skip(ti)[0] == tv[ti]);
    assert(tv.skip(ti).drop_first() =~= tv.skip(ti + 1));
    if tail_match(tv, ti, s, si) {
        let k0 = choose|k0: int|
            1 <= k0 <= s.skip(si).len() && #[trigger] param_run(s.skip(si), k0) && toks_match(
                tv.skip(ti).drop_first(),
                s.skip(si).skip(k0),
            );
        let k = si + k0;
        assert(s.skip(si).skip(k0) =~= s.skip(k));
        assert forall|q: int| si <= q < k implies is_param_char(s[q]) by {
            assert(s.skip(si)[q - si] == s[q]);
        }
        assert(absolute_param_run(s, si, k) && tail_match(tv, ti + 1, s, k));
    }
    if exists|k: int|
        si < k <= s.len() && #[trigger] absolute_param_run(s, si, k) && tail_match(
            tv,
            ti + 1,
            s,
            k,
        ) {
        let k = choose|k: int|
            si < k <= s.len() && #[trigger] absolute_param_run(s, si, k) && tail_match(
                tv,
                ti + 1,
                s,
                k,
            );
        let k0 = k - si;
        assert(s.skip(si).skip(k0) =~= s.skip(k));
        assert forall|q: int| 0 <= q < k0 implies is_param_char(s.skip(si)[q]) by {
            assert(s.skip(si)[q] == s[si + q]);
        }
        assert(param_run(s.skip(si), k0));
        assert(1 <= k0 <= s.skip(si).len() && param_run(s.skip(si), k0) && toks_match(
            tv.skip(ti).drop_first(),
            s.skip(si).skip(k0),
        ));
    }
}

/// The characters of `s[si..k]` are all parameter characters.
pub open spec fn absolute_param_run(s: Seq<char>, si: int, k: int) -> bool {
    forall|q: int| si <= q < k ==> is_param_char(s[q])
}

// ---------------------------------------------------------------------------
// The laws of matching.
// ---------------------------------------------------------------------------

/// A template without a brace token compiles to a static pattern that
/// matches exactly the template itself: no other path is accepted, and the
/// template is accepted.
pub proof fn lemma_static_pattern_matches_exactly(t: Seq<char>, p: Seq<char>)
    requires
        !(has_char(t, '{') && has_char(t, '}')),
    ensures
        spec_compile(t) == Ok::<PatternView, CompileFault>(PatternView::Static(t)),
        pattern_matches(PatternView::Static(t), p) <==> p == t,
{
}

/// The fragment a rejected template is reported with is a verbatim piece of
/// the template, and it holds the offending brace.
pub proof fn lemma_invalid_fragment_is_verbatim(t: Seq<char>, i: int)
    requires
        0 <= i <= t.len(),
        scan_tokens(t, i) is Err,
    ensures
        scan_tokens(t, i) matches Err(part) && has_brace(part) && exists|a: int, b: int|
            i <= a <= b <= t.len() && part == #[trigger] t.subrange(a, b),
    decreases t.len() - i,
{
    lemma_next_token_pos(t, i);
    let p = next_token_pos(t, i);
    let chunk = t.subrange(i, p);
    if has_brace(chunk) {
        assert(chunk == t.subrange(i, p));
    } else if p >= t.len() {
        // scan succeeds here; contradiction with the requires
    } else {
        lemma_token_end_bounds(t, p);
        let end = token_end(t, p)->0;
        if token_is_strict(t, p) {
            lemma_invalid_fragment_is_verbatim(t, end);
        } else {
            let part = t.subrange(p, end);
            assert(part[0] == t[p]);
            assert(has_char(part, '{'));
            assert(part == t.subrange(p, end));
        }
    }
}

/// A template the compiler rejects for a stray brace is reported with a
/// verbatim fragment of that template, and the fragment holds the brace.
pub proof fn lemma_rejected_template_reports_verbatim(t: Seq<char>)
    requires
        has_char(t, '{') && has_char(t, '}'),
        scan_tokens(t, 0) is Err,
    ensures
        spec_compile(t) matches Err(f) && f matches CompileFault::Invalid(part) && has_brace(part)
            && exists|a: int, b: int| 0 <= a <= b <= t.len() && part == #[trigger] t.subrange(a, b),
{
    lemma_invalid_fragment_is_verbatim(t, 0);
}

/// How a token sequence prints back as a template: literals verbatim, a
/// parameter as its brace token.
pub open spec fn render_tokens(toks: Seq<TokenView>) -> Seq<char>
    decreases toks.len(),
{
    if toks.len() == 0 {
        Seq::empty()
    } else {
        (match toks[0] {
            TokenView::Literal(l) => l,
            TokenView::Parameter(n) => seq!['{'] + n + seq!['}'],
        }) + render_tokens(toks.drop_first())
    }
}

proof fn lemma_render_concat(a: Seq<TokenView>, b: Seq<TokenView>)
    ensures
        render_tokens(a + b) == render_tokens(a) + render_tokens(b),
    decreases a.len(),
{
    if a.len() == 0 {
        assert(a + b =~= b);
        assert(Seq::<char>::empty() + render_tokens(b) =~= render_tokens(b));
    } else {
        lemma_render_concat(a.drop_first(), b);
        assert((a + b)[0] == a[0]);
        assert((a + b).drop_first() =~= a.drop_first() + b);
        match a[0] {
            TokenView::Literal(l) => {
                assert(l + (render_tokens(a.drop_first()) + render_tokens(b)) =~= (l
                    + render_tokens(a.drop_first())) + render_tokens(b));
            },
            TokenView::Parameter(n) => {
                assert((seq!['{'] + n + seq!['}']) + (render_tokens(a.drop_first())
                    + render_tokens(b)) =~= ((seq!['{'] + n + seq!['}']) + render_tokens(
                    a.drop_first(),
                )) + render_tokens(b));
            },
        }
    }
}

/// A template that scans is decomposed faithfully: printing the tokens back
/// yields the scanned text, character for character — no token is invented
/// and none is lost.
#[verifier::rlimit(100)]
pub proof fn lemma_scan_is_faithful(t: Seq<char>, i: int)
    requires
        0 <= i <= t.len(),
        scan_tokens(t, i) is Ok,
    ensures
        scan_tokens(t, i) matches Ok(toks) ==> render_tokens(toks) == t.subrange(
            i,
            t.len() as int,
        ),
    decreases t.len() - i,
{
    lemma_next_token_pos(t, i);
    let p = next_token_pos(t, i);
    let chunk = t.subrange(i, p);
    let chunk_part = if chunk.len() > 0 {
        seq![TokenView::Literal(chunk)]
    } else {
        Seq::<TokenView>::empty()
    };
    if !has_brace(chunk) {
        if p >= t.len() {
            assert(p == t.len());
            if chunk.len() > 0 {
                assert(seq![TokenView::Literal(chunk)][0] == TokenView::Literal(chunk));
                assert(seq![TokenView::Literal(chunk)].drop_first() =~= Seq::<TokenView>::empty());
                assert(render_tokens(seq![TokenView::Literal(chunk)]) == chunk + render_tokens(
                    Seq::empty(),
                ));
                assert(chunk + Seq::<char>::empty() =~= chunk);
            } else {
                assert(t.subrange(i, t.len() as int) =~= Seq::empty());
            }
        } else {
            lemma_token_end_bounds(t, p);
            let end = token_end(t, p)->0;
            if token_is_strict(t, p) {
                match scan_tokens(t, end) {
                    Ok(rest) => {
                        lemma_scan_is_faithful(t, end);
                        lemma_space_run_end(t, p + 1);
                        lemma_word_run_end(t, p + 1);
                        let name = token_name(t, p);
                        // The strict token is literally `{`, the name, `}`.
                        assert(seq!['{'] + name + seq!['}'] =~= t.subrange(p, end));
                        lemma_render_concat(chunk_part + seq![TokenView::Parameter(name)], rest);
                        lemma_render_concat(chunk_part, seq![TokenView::Parameter(name)]);
                        assert(seq![TokenView::Parameter(name)][0] == TokenView::Parameter(name));
                        assert(seq![TokenView::Parameter(name)].drop_first() =~= Seq::<
                            TokenView,
                        >::empty());
                        assert(render_tokens(seq![TokenView::Parameter(name)]) == (seq!['{'] + name
                            + seq!['}']) + render_tokens(Seq::empty()));
                        assert((seq!['{'] + name + seq!['}']) + Seq::<char>::empty() =~= t.subrange(
                            p,
                            end,
                        ));
                        if chunk.len() > 0 {
                            assert(seq![TokenView::Literal(chunk)][0] == TokenView::Literal(chunk));
                            assert(seq![TokenView::Literal(chunk)].drop_first() =~= Seq::<
                                TokenView,
                            >::empty());
                            assert(render_tokens(chunk_part) == chunk + render_tokens(
                                Seq::empty(),
                            ));
                            assert(chunk + Seq::<char>::empty() =~= chunk);
                        } else {
                            assert(render_tokens(chunk_part) =~= chunk);
                        }
                        assert(chunk + t.subrange(p, end) + t.subrange(end, t.len() as int)
                            =~= t.subrange(i, t.len() as int));
                        assert(render_tokens(chunk_part + seq![TokenView::Parameter(name)] + rest)
                            == render_tokens(chunk_part + seq![TokenView::Parameter(name)])
                            + render_tokens(rest));
                    },
                    Err(_) => {},
                }
            }
        }
    }
}

/// A template that compiles to a dynamic pattern is decomposed faithfully:
/// its tokens render back to the template verbatim.
pub proof fn lemma_compiled_tokens_render_the_template(t: Seq<char>)
    requires
        spec_compile(t) matches Ok(p) && p is Dynamic,
    ensures
        spec_compile(t) matches Ok(p) ==> (p matches PatternView::Dynamic(toks) ==> render_tokens(
            toks,
        ) == t),
{
    if scan_tokens(t, 0) is Ok {
        lemma_scan_is_faithful(t, 0);
        assert(t.subrange(0, t.len() as int) =~= t);
    }
}

/// A sound token: a literal is nonempty and brace-free, a parameter's name
/// is a nonempty identifier.
pub open spec fn token_wf(tok: TokenView) -> bool {
    match tok {
        TokenView::Literal(l) => l.len() > 0 && !has_brace(l),
        TokenView::Parameter(n) => n.len() > 0 && forall|i: int|
            0 <= i < n.len() ==> is_word_char(n[i]),
    }
}

proof fn lemma_scan_tokens_well_formed(t: Seq<char>, i: int)
    requires
        0 <= i <= t.len(),
        scan_tokens(t, i) is Ok,
    ensures
        scan_tokens(t, i) matches Ok(toks) ==> forall|j: int|
            0 <= j < toks.len() ==> #[trigger] token_wf(toks[j]),
    decreases t.len() - i,
{
    lemma_next_token_pos(t, i);
    let p = next_token_pos(t, i);
    let chunk = t.subrange(i, p);
    if !has_brace(chunk) {
        if p >= t.len() {
        } else {
            lemma_token_end_bounds(t, p);
            let end = token_end(t, p)->0;
            if token_is_strict(t, p) {
                match scan_tokens(t, end) {
                    Ok(rest) => {
                        lemma_scan_tokens_well_formed(t, end);
                        lemma_word_run_end(t, p + 1);
                        let name = token_name(t, p);
                        assert(name.len() > 0 && forall|q: int|
                            0 <= q < name.len() ==> is_word_char(name[q]));
                        let pre = if chunk.len() > 0 {
                            seq![TokenView::Literal(chunk)]
                        } else {
                            Seq::<TokenView>::empty()
                        };
                        let toks = pre + seq![TokenView::Parameter(name)] + rest;
                        assert forall|j: int| 0 <= j < toks.len() implies #[trigger] token_wf(
                            toks[j],
                        ) by {
                            if j < pre.len() {
                                assert(toks[j] == TokenView::Literal(chunk));
                            } else if j == pre.len() {
                                assert(toks[j] == TokenView::Parameter(name));
                            } else {
                                assert(toks[j] == rest[j - pre.len() - 1]);
                            }
                        }
                    },
                    Err(_) => {},
                }
            }
        }
    }
}

/// A compiled dynamic pattern is sound, exactly as registration promises:
/// every literal is nonempty and brace-free, every parameter name is a
/// nonempty identifier, and no parameter name is declared twice.
pub proof fn lemma_compiled_pattern_well_formed(t: Seq<char>)
    requires
        spec_compile(t) matches Ok(p) && p is Dynamic,
    ensures
        spec_compile(t) matches Ok(p) ==> (p matches PatternView::Dynamic(toks) ==> {
            &&& forall|j: int| 0 <= j < toks.len() ==> #[trigger] token_wf(toks[j])
            &&& forall|a: int, b: int|
                0 <= a < b < token_names(toks).len() ==> token_names(toks)[a] != token_names(
                    toks,
                )[b]
        }),
{
    if scan_tokens(t, 0) is Ok {
        lemma_scan_tokens_well_formed(t, 0);
        match scan_tokens(t, 0) {
            Ok(toks) => {
                let names = token_names(toks);
                lemma_first_dup_from(names, 0);
                if first_dup_from(names, 0) == names.len() {
                    assert forall|a: int, b: int|
                        0 <= a < b < names.len() implies names[a] != names[b] by {
                        assert(!dup_at(names, b));
                    }
                }
            },
            Err(_) => {},
        }
    }
}

/// First position at or after `i` holding a `/`; `s.len()` when none does.
pub open spec fn first_slash_from(s: Seq<char>, i: int) -> int
    decreases s.len() - i,
        when 0 <= i <= s.len()
{
    if i >= s.len() {
        i
    } else if s[i] == '/' {
        i
    } else {
        first_slash_from(s, i + 1)
    }
}

pub proof fn lemma_first_slash_from(s: Seq<char>, i: int)
    requires
        0 <= i <= s.len(),
    ensures
        i <= first_slash_from(s, i) <= s.len(),
        forall|j: int| i <= j < first_slash_from(s, i) ==> s[j] != '/',
        first_slash_from(s, i) < s.len() ==> s[first_slash_from(s, i)] == '/',
    decreases s.len() - i,
{
    if i < s.len() && s[i] != '/' {
        lemma_first_slash_from(s, i + 1);
    }
}

/// The token is a literal beginning with the segment separator.
pub open spec fn starts_with_slash(tok: TokenView) -> bool {
    match tok {
        TokenView::Literal(l) => l.len() > 0 && l[0] == '/',
        TokenView::Parameter(_) => false,
    }
}

/// Every parameter from `ti` on runs to the end of its path segment: it is
/// the last token, or a literal starting with `/` follows it.  Templates
/// whose parameters each stand as a whole segment — `/users/{id}`,
/// `/blog/{b}/users/{u}` — compile to such token sequences.
pub open spec fn param_segment_aligned(toks: Seq<TokenView>, ti: int) -> bool {
    forall|i: int|
        ti <= i < toks.len() && (#[trigger] toks[i]) is Parameter ==> (i + 1 == toks.len()
            || starts_with_slash(toks[i + 1]))
}

/// Deterministic segment-by-segment comparison from token `ti` and position
/// `si` on: literals verbatim; a parameter absorbs exactly the characters up
/// to the next `/` (or to the end, for a final parameter), which must be one
/// nonempty brace-free segment.
pub open spec fn segment_match_from(toks: Seq<TokenView>, ti: int, s: Seq<char>, si: int) -> bool
    decreases toks.len() - ti,
        when 0 <= ti <= toks.len() && 0 <= si <= s.len()
{
    if ti >= toks.len() {
        si == s.len()
    } else {
        match toks[ti] {
            TokenView::Literal(l) => {
                if si + l.len() <= s.len() && s.subrange(si, si + l.len() as int) == l {
                    segment_match_from(toks, ti + 1, s, si + l.len() as int)
                } else {
                    false
                }
            },
            TokenView::Parameter(_) => {
                if ti + 1 == toks.len() {
                    si < s.len() && absolute_param_run(s, si, s.len() as int)
                } else {
                    let k = first_slash_from(s, si);
                    if si < k && absolute_param_run(s, si, k) {
                        segment_match_from(toks, ti + 1, s, k)
                    } else {
                        false
                    }
                }
            },
        }
    }
}

/// Backtracking matching and segment-by-segment comparison agree on every
/// segment-aligned pattern: a parameter absorbs exactly one nonempty
/// segment, never crossing a `/`.
pub proof fn lemma_tail_match_is_segment_match(
    toks: Seq<TokenView>,
    ti: int,
    s: Seq<char>,
    si: int,
)
    requires
        0 <= ti <= toks.len(),
        0 <= si <= s.len(),
        param_segment_aligned(toks, ti),
    ensures
        tail_match(toks, ti, s, si) <==> segment_match_from(toks, ti, s, si),
    decreases toks.len() - ti,
{
    if ti >= toks.len() {
        lemma_tail_match_done(toks, s, si);
    } else {
        match toks[ti] {
            TokenView::Literal(l) => {
                lemma_tail_match_literal(toks, ti, s, si, l);
                if si + l.len() <= s.len() && s.subrange(si, si + l.len() as int) == l {
                    lemma_tail_match_is_segment_match(toks, ti + 1, s, si + l.len() as int);
                }
            },
            TokenView::Parameter(_) => {
                lemma_tail_match_parameter(toks, ti, s, si);
                if ti + 1 == toks.len() {
                    // A final parameter absorbs everything that is left.
                    if tail_match(toks, ti, s, si) {
                        let k = choose|k: int|
                            si < k <= s.len() && #[trigger] absolute_param_run(s, si, k)
                                && tail_match(toks, ti + 1, s, k);
                        lemma_tail_match_done(toks, s, k);
                        assert(k == s.len());
                    }
                    if si < s.len() && absolute_param_run(s, si, s.len() as int) {
                        lemma_tail_match_done(toks, s, s.len() as int);
                        assert(absolute_param_run(s, si, s.len() as int) && tail_match(
                            toks,
                            ti + 1,
                            s,
                            s.len() as int,
                        ));
                    }
                } else {
                    let l1 = match toks[ti + 1] {
                        TokenView::Literal(l1) => l1,
                        TokenView::Parameter(_) => arbitrary(),
                    };
                    assert(starts_with_slash(toks[ti + 1]));
                    lemma_first_slash_from(s, si);
                    let kk = first_slash_from(s, si);
                    if tail_match(toks, ti, s, si) {
                        let k = choose|k: int|
                            si < k <= s.len() && #[trigger] absolute_param_run(s, si, k)
                                && tail_match(toks, ti + 1, s, k);
                        lemma_tail_match_literal(toks, ti + 1, s, k, l1);
                        assert(s.subrange(k, k + l1.len() as int)[0] == s[k]);
                        assert(s[k] == '/');
                        assert(forall|q: int| si <= q < k ==> is_param_char(s[q]));
                        assert(kk == k);
                        lemma_tail_match_is_segment_match(toks, ti + 1, s, k);
                    }
                    if segment_match_from(toks, ti, s, si) {
                        lemma_tail_match_is_segment_match(toks, ti + 1, s, kk);
                        assert(absolute_param_run(s, si, kk) && tail_match(toks, ti + 1, s, kk));
                    }
                }
            },
        }
    }
}

/// Matching a segment-aligned dynamic pattern is exactly segment-by-segment
/// comparison, each parameter absorbing one nonempty `/`-free segment.
pub proof fn lemma_dynamic_pattern_matches_segmentwise(toks: Seq<TokenView>, s: Seq<char>)
    requires
        param_segment_aligned(toks, 0),
    ensures
        pattern_matches(PatternView::Dynamic(toks), s) <==> segment_match_from(toks, 0, s, 0),
{
    assert(toks.skip(0) =~= toks);
    assert(s.skip(0) =~= s);
    lemma_tail_match_is_segment_match(toks, 0, s, 0);
}

// ---------------------------------------------------------------------------
// Compiling a template.
// ---------------------------------------------------------------------------

/// A scan result prefixed by the tokens already gathered.
pub open spec fn prefix_result(pre: Seq<TokenView>, r: Result<Seq<TokenView>, Seq<char>>) -> Result<
    Seq<TokenView>,
    Seq<char>,
> {
    match r {
        Ok(rest) => Ok(pre + rest),
        Err(part) => Err(part),
    }
}

proof fn lemma_prefix_result_empty(r: Result<Seq<TokenView>, Seq<char>>)
    ensures
        prefix_result(Seq::empty(), r) == r,
{
    match r {
        Ok(rest) => {
            assert(Seq::empty() + rest =~= rest);
        },
        Err(_) => {},
    }
}

proof fn lemma_prefix_result_concat(
    a: Seq<TokenView>,
    b: Seq<TokenView>,
    r: Result<Seq<TokenView>, Seq<char>>,
)
    ensures
        prefix_result(a, prefix_result(b, r)) == prefix_result(a + b, r),
{
    match r {
        Ok(rest) => {
            assert(a + (b + rest) =~= (a + b) + rest);
        },
        Err(_) => {},
    }
}

proof fn lemma_token_names_push_literal(tv: Seq<TokenView>, l: Seq<char>)
    ensures
        token_names(tv.push(TokenView::Literal(l))) == token_names(tv),
    decreases tv.len(),
{
    reveal_with_fuel(token_names, 3);
    if tv.len() == 0 {
        assert(tv.push(TokenView::Literal(l))[0] == TokenView::Literal(l));
        assert(tv.push(TokenView::Literal(l)).drop_first() =~= Seq::empty());
    } else {
        lemma_token_names_push_literal(tv.drop_first(), l);
        assert(tv.push(TokenView::Literal(l))[0] == tv[0]);
        assert(tv.push(TokenView::Literal(l)).drop_first() =~= tv.drop_first().push(
            TokenView::Literal(l),
        ));
    }
}

proof fn lemma_token_names_push_parameter(tv: Seq<TokenView>, n: Seq<char>)
    ensures
        token_names(tv.push(TokenView::Parameter(n))) == token_names(tv).push(n),
    decreases tv.len(),
{
    reveal_with_fuel(token_names, 3);
    if tv.len() == 0 {
        assert(tv.push(TokenView::Parameter(n))[0] == TokenView::Parameter(n));
        assert(tv.push(TokenView::Parameter(n)).drop_first() =~= Seq::empty());
        assert(seq![n] + token_names(Seq::empty()) =~= token_names(tv).push(n));
    } else {
        lemma_token_names_push_parameter(tv.drop_first(), n);
        assert(tv.push(TokenView::Parameter(n))[0] == tv[0]);
        assert(tv.push(TokenView::Parameter(n)).drop_first() =~= tv.drop_first().push(
            TokenView::Parameter(n),
        ));
        match tv[0] {
            TokenView::Parameter(m) => {
                assert(seq![m] + token_names(tv.drop_first()).push(n) =~= (seq![m] + token_names(
                    tv.drop_first(),
                )).push(n));
            },
            TokenView::Literal(_) => {},
        }
    }
}

/// How an executable compile error reflects a specification-level fault.
pub open spec fn compile_error_matches(e: AlcazarError, f: CompileFault, t: Seq<char>) -> bool {
    match (e, f) {
        (
            AlcazarError::RoutingError(RoutingError::InvalidPathError { part, path }),
            CompileFault::Invalid(frag),
        ) => part@ == frag && path@ == t,
        (
            AlcazarError::RoutingError(RoutingError::PatternCompileFailure(name)),
            CompileFault::Duplicate(n),
        ) => name@ == n,
        _ => false,
    }
}

impl PatternType {
    /// Compiles a path template: a template without brace tokens becomes a
    /// static pattern, one with tokens a dynamic pattern; a stray brace or a
    /// doubly-declared parameter is rejected here, at registration time.
    #[verifier::loop_isolation(false)]
    pub fn from_str(path: &str) -> (r: Result<PatternType, AlcazarError>)
        ensures
            r is Ok <==> spec_compile(path@) is Ok,
            r matches Ok(p) ==> spec_compile(path@) == Ok::<PatternView, CompileFault>(p@),
            r matches Err(e) ==> (spec_compile(path@) matches Err(f) && compile_error_matches(
                e,
                f,
                path@,
            )),
    {
        let ghost t = path@;
        let has_open = crate::text::contains_char(path, '{');
        let has_close = crate::text::contains_char(path, '}');
        if !(has_open && has_close) {
            return Ok(PatternType::Static(path.to_owned()));
        }
        let n = path.unicode_len();
        let mut toks: Vec<PatternToken> = Vec::new();
        let mut names: Vec<String> = Vec::new();
        let mut i: usize = 0;
        proof {
            lemma_prefix_result_empty(scan_tokens(t, 0));
            assert(token_views(toks@) =~= Seq::empty());
            assert(names@.map_values(|x: String| x@) =~= Seq::empty());
        }
        while i < n
            invariant
                i <= n,
                scan_tokens(t, 0) == prefix_result(token_views(toks@), scan_tokens(t, i as int)),
                names@.map_values(|x: String| x@) == token_names(token_views(toks@)),
            decreases n - i,
        {
            let (p, tok) = next_token_start(path, i);
            proof {
                lemma_next_token_pos(t, i as int);
            }
            let ghost chunk = t.subrange(i as int, p as int);
            if range_has_brace(path, i, p) {
                let part = path.substring_char(i, p).to_owned();
                return Err(
                    AlcazarError::RoutingError(
                        RoutingError::InvalidPathError { part, path: path.to_owned() },
                    ),
                );
            }
            if p == n {
                if p > i {
                    let lit = path.substring_char(i, p).to_owned();
                    proof {
                        lemma_token_names_push_literal(token_views(toks@), chunk);
                        assert(token_views(toks@.push(PatternToken::Literal(lit)))
                            =~= token_views(toks@).push(TokenView::Literal(chunk)));
                        assert(token_views(toks@).push(TokenView::Literal(chunk)) =~= token_views(
                            toks@,
                        ) + seq![TokenView::Literal(chunk)]);
                        lemma_prefix_result_concat(
                            token_views(toks@),
                            seq![TokenView::Literal(chunk)],
                            scan_tokens(t, n as int),
                        );
                    }
                    toks.push(PatternToken::Literal(lit));
                } else {
                    proof {
                        assert(chunk =~= Seq::empty());
                        assert(token_views(toks@) + Seq::empty() =~= token_views(toks@));
                    }
                }
                i = n;
            } else {
                let tt = tok.unwrap();
                let (ns, ne, end) = tt;
                proof {
                    lemma_token_end_bounds(t, p as int);
                    lemma_space_run_end(t, p as int + 1);
                    lemma_word_run_end(t, ns as int);
                }
                if !(ns == p + 1 && end == ne + 1) {
                    // A spaced token such as `{ id }` is reported verbatim.
                    proof {
                        assert(!token_is_strict(t, p as int));
                    }
                    let part = path.substring_char(p, end).to_owned();
                    return Err(
                        AlcazarError::RoutingError(
                            RoutingError::InvalidPathError { part, path: path.to_owned() },
                        ),
                    );
                }
                let ghost name_seq = t.subrange(ns as int, ne as int);
                proof {
                    assert(token_is_strict(t, p as int));
                    assert(token_name(t, p as int) == name_seq);
                }
                let name = path.substring_char(ns, ne).to_owned();
                let ghost pre = token_views(toks@);
                let ghost step =
                    (if chunk.len() > 0 {
                    seq![TokenView::Literal(chunk)]
                } else {
                    Seq::<TokenView>::empty()
                }) + seq![TokenView::Parameter(name_seq)];
                proof {
                    match scan_tokens(t, end as int) {
                        Ok(rest) => {
                            assert(scan_tokens(t, i as int) == Ok::<Seq<TokenView>, Seq<char>>(
                                (if chunk.len() > 0 {
                                    seq![TokenView::Literal(chunk)]
                                } else {
                                    Seq::<TokenView>::empty()
                                }) + seq![TokenView::Parameter(name_seq)] + rest,
                            ));
                            assert(step + rest =~= (if chunk.len() > 0 {
                                seq![TokenView::Literal(chunk)]
                            } else {
                                Seq::<TokenView>::empty()
                            }) + seq![TokenView::Parameter(name_seq)] + rest);
                            assert(scan_tokens(t, i as int) == prefix_result(
                                step,
                                scan_tokens(t, end as int),
                            ));
                        },
                        Err(_) => {
                            assert(scan_tokens(t, i as int) == prefix_result(
                                step,
                                scan_tokens(t, end as int),
                            ));
                        },
                    }
                    lemma_prefix_result_concat(pre, step, scan_tokens(t, end as int));
                }
                if p > i {
                    let lit = path.substring_char(i, p).to_owned();
                    proof {
                        lemma_token_names_push_literal(token_views(toks@), chunk);
                        assert(token_views(toks@.push(PatternToken::Literal(lit)))
                            =~= token_views(toks@).push(TokenView::Literal(chunk)));
                    }
                    toks.push(PatternToken::Literal(lit));
                }
                proof {
                    lemma_token_names_push_parameter(token_views(toks@), name_seq);
                    assert(token_views(toks@.push(PatternToken::Parameter(name)))
                        =~= token_views(toks@).push(TokenView::Parameter(name_seq)));
                    assert(token_views(toks@).push(TokenView::Parameter(name_seq)) =~= pre + step);
                    assert(names@.push(name).map_values(|x: String| x@) =~= names@.map_values(
                        |x: String| x@,
                    ).push(name_seq));
                }
                names.push(name.clone());
                toks.push(PatternToken::Parameter(name));
                i = end;
            }
        }
        proof {
            assert(scan_tokens(t, n as int) == Ok::<Seq<TokenView>, Seq<char>>(Seq::empty()));
            assert(token_views(toks@) + Seq::<TokenView>::empty() =~= token_views(toks@));
            assert(scan_tokens(t, 0) == Ok::<Seq<TokenView>, Seq<char>>(token_views(toks@)));
        }
        // The template scanned cleanly; reject a parameter declared twice.
        let ghost nviews = names@.map_values(|x: String| x@);
        let m = names.len();
        let mut jj: usize = 0;
        while jj < m
            invariant
                jj <= m,
                first_dup_from(nviews, 0) == first_dup_from(nviews, jj as int),
            decreases m - jj,
        {
            let mut ii: usize = 0;
            while ii < jj
                invariant
                    ii <= jj,
                    forall|q: int| 0 <= q < ii ==> nviews[q] != nviews[jj as int],
                decreases jj - ii,
            {
                if crate::text::str_eq(names[ii].as_str(), names[jj].as_str()) {
                    proof {
                        assert(nviews[ii as int] == nviews[jj as int]);
                        assert(dup_at(nviews, jj as int));
                        lemma_first_dup_from(nviews, jj as int);
                        assert(first_dup_from(nviews, 0) == jj as int);
                    }
                    return Err(
                        AlcazarError::RoutingError(
                            RoutingError::PatternCompileFailure(names[jj].clone()),
                        ),
                    );
                }
                ii = ii + 1;
            }
            proof {
                assert(!dup_at(nviews, jj as int));
            }
            jj = jj + 1;
        }
        proof {
            lemma_first_dup_from(nviews, 0);
        }
        Ok(PatternType::Dynamic(toks))
    }

    /// Whether the compiled pattern accepts the whole of `path`.
    pub fn is_match(&self, path: &str) -> (r: bool)
        ensures
            r == pattern_matches(self@, path@),
    {
        match self {
            PatternType::Static(s) => crate::text::str_eq(s.as_str(), path),
            PatternType::Dynamic(toks) => {
                let r = match_tokens_from(toks, 0, path, 0);
                proof {
                    assert(token_views(toks@).skip(0) =~= token_views(toks@));
                    assert(path@.skip(0) =~= path@);
                }
                r
            },
        }
    }
}

/// Matches tokens `ti..` of the pattern against characters `si..` of the
/// path, trying every split a parameter could take.
#[verifier::loop_isolation(false)]
fn match_tokens_from(toks: &Vec<PatternToken>, ti: usize, s: &str, si: usize) -> (r: bool)
    requires
        ti <= toks@.len(),
        si <= s@.len(),
    ensures
        r == tail_match(token_views(toks@), ti as int, s@, si as int),
    decreases toks@.len() - ti,
{
    let ghost tv = token_views(toks@);
    let n = s.unicode_len();
    if ti == toks.len() {
        proof {
            lemma_tail_match_done(tv, s@, si as int);
        }
        return si == n;
    }
    match &toks[ti] {
        PatternToken::Literal(l) => {
            proof {
                assert(tv[ti as int] == TokenView::Literal(l@));
            }
            let ll = l.as_str().unicode_len();
            if ll > n - si {
                proof {
                    lemma_tail_match_literal(tv, ti as int, s@, si as int, l@);
                }
                return false;
            }
            let sub = s.substring_char(si, si + ll);
            if !crate::text::str_eq(l.as_str(), sub) {
                proof {
                    lemma_tail_match_literal(tv, ti as int, s@, si as int, l@);
                }
                return false;
            }
            let r = match_tokens_from(toks, ti + 1, s, si + ll);
            proof {
                lemma_tail_match_literal(tv, ti as int, s@, si as int, l@);
            }
            r
        },
        PatternToken::Parameter(_) => {
            proof {
                assert(tv[ti as int] is Parameter);
                lemma_tail_match_parameter(tv, ti as int, s@, si as int);
            }
            let mut k = si;
            while k < n
                invariant
                    si <= k <= n,
                    forall|q: int| si <= q < k ==> is_param_char(s@[q]),
                    forall|kk: int|
                        si < kk <= k ==> !(#[trigger] tail_match(tv, ti as int + 1, s@, kk)),
                decreases n - k,
            {
                let c = s.get_char(k);
                if !param_char(c) {
                    proof {
                        assert forall|kk: int| si < kk <= s@.len() implies !(
                        #[trigger] absolute_param_run(s@, si as int, kk) && tail_match(
                            tv,
                            ti as int + 1,
                            s@,
                            kk,
                        )) by {
                            if kk > k {
                                assert(!is_param_char(s@[k as int]));
                            }
                        }
                    }
                    return false;
                }
                k = k + 1;
                let hit = match_tokens_from(toks, ti + 1, s, k);
                if hit {
                    proof {
                        assert(absolute_param_run(s@, si as int, k as int));
                    }
                    return true;
                }
            }
            proof {
                assert forall|kk: int| si < kk <= s@.len() implies !(#[trigger] absolute_param_run(
                    s@,
                    si as int,
                    kk,
                ) && tail_match(tv, ti as int + 1, s@, kk)) by {}
            }
            false
        },
    }
}

} // verus!


