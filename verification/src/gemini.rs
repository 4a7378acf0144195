use vstd::prelude::*;
use vstd::string::StrSliceExecFns;

use crate::error::GemcapsError;
use crate::strutil::{chars_vec, digit_char, digit_str};

verus! {

/// A half-open range of character positions inside the raw URI.
#[derive(Clone, Copy, Debug)]
pub struct Span {
    pub start: usize,
    pub end: usize,
}

/// A character a domain may contain.
pub open spec fn is_dom_char(c: char) -> bool {
    c != ':' && c != '/' && c != '?' && c != '\r' && c != '\n'
}

/// A character a path may contain.
pub open spec fn is_path_char(c: char) -> bool {
    c != '?' && c != '\r' && c != '\n'
}

/// A character a query may contain.
pub open spec fn is_query_char(c: char) -> bool {
    c != '\r' && c != '\n'
}

/// An ASCII digit.
pub open spec fn is_digit_char(c: char) -> bool {
    '0' <= c && c <= '9'
}

pub open spec fn dom_pred() -> spec_fn(char) -> bool {
    |c: char| is_dom_char(c)
}

pub open spec fn path_pred() -> spec_fn(char) -> bool {
    |c: char| is_path_char(c)
}

pub open spec fn query_pred() -> spec_fn(char) -> bool {
    |c: char| is_query_char(c)
}

pub open spec fn digit_pred() -> spec_fn(char) -> bool {
    |c: char| is_digit_char(c)
}

/// `i` is a position where a scheme separator `://` can anchor a match:
/// at least one scheme character stands right before it and a domain
/// character right after it.
pub open spec fn anchor_ok(s: Seq<char>, i: int) -> bool {
    &&& 1 <= i
    &&& i + 3 < s.len()
    &&& s[i] == ':'
    &&& s[i + 1] == '/'
    &&& s[i + 2] == '/'
    &&& s[i - 1] != ':'
    &&& is_dom_char(s[i + 3])
}

/// The URI holds a parseable request.
pub open spec fn has_anchor(s: Seq<char>) -> bool {
    exists|i: int| anchor_ok(s, i)
}

/// The first anchor position at or after `i`, or the length of `s`.
pub open spec fn first_anchor_from(s: Seq<char>, i: int) -> int
    decreases s.len() - i,
{
    if anchor_ok(s, i) {
        i
    } else if i >= s.len() {
        s.len() as int
    } else {
        first_anchor_from(s, i + 1)
    }
}

/// The first anchor position of the URI.
pub open spec fn first_anchor(s: Seq<char>) -> int {
    first_anchor_from(s, 0)
}

proof fn lemma_first_anchor_from(s: Seq<char>, i: int)
    requires
        0 <= i <= s.len(),
    ensures
        i <= first_anchor_from(s, i) <= s.len(),
        forall|j: int| i <= j < first_anchor_from(s, i) ==> !anchor_ok(s, j),
        first_anchor_from(s, i) < s.len() ==> anchor_ok(s, first_anchor_from(s, i)),
        (exists|j: int| i <= j && anchor_ok(s, j)) ==> first_anchor_from(s, i) < s.len(),
    decreases s.len() - i,
{
    if anchor_ok(s, i) {
    } else if i >= s.len() {
        assert forall|j: int| i <= j && anchor_ok(s, j) implies false by {}
    } else {
        lemma_first_anchor_from(s, i + 1);
        if exists|j: int| i <= j && anchor_ok(s, j) {
            let j = choose|j: int| i <= j && anchor_ok(s, j);
            assert(i + 1 <= j);
        }
    }
}

pub proof fn lemma_first_anchor(s: Seq<char>)
    ensures
        has_anchor(s) <==> first_anchor(s) < s.len(),
        has_anchor(s) ==> anchor_ok(s, first_anchor(s)),
        forall|j: int| 0 <= j < first_anchor(s) ==> !anchor_ok(s, j),
        0 <= first_anchor(s) <= s.len(),
{
    lemma_first_anchor_from(s, 0);
    if has_anchor(s) {
        let j = choose|j: int| anchor_ok(s, j);
        assert(0 <= j && anchor_ok(s, j));
    }
}

/// The first position at or after `from` where `pred` stops holding, or the
/// length of `s`.
pub open spec fn scan_while<T>(s: Seq<T>, from: int, pred: spec_fn(T) -> bool) -> int
    decreases s.len() - from,
{
    if from < 0 {
        0
    } else if from >= s.len() {
        s.len() as int
    } else if !pred(s[from]) {
        from
    } else {
        scan_while(s, from + 1, pred)
    }
}

pub proof fn lemma_scan_while<T>(s: Seq<T>, from: int, pred: spec_fn(T) -> bool)
    requires
        0 <= from <= s.len(),
    ensures
        from <= scan_while(s, from, pred) <= s.len(),
        forall|k: int| from <= k < scan_while(s, from, pred) ==> pred(s[k]),
        scan_while(s, from, pred) < s.len() ==> !pred(s[scan_while(s, from, pred)]),
    decreases s.len() - from,
{
    if from < s.len() && pred(s[from]) {
        lemma_scan_while(s, from + 1, pred);
    }
}

/// The character spans of the five URI segments.
pub struct ReqSpans {
    pub protocol: (int, int),
    pub domain: (int, int),
    pub port: (int, int),
    pub path: (int, int),
    pub query: (int, int),
}

/// Where the scheme run before the anchor begins.
pub open spec fn scan_back(s: Seq<char>, a: int) -> int
    decreases a,
{
    if a <= 0 {
        0
    } else if s[a - 1] == ':' {
        a
    } else {
        scan_back(s, a - 1)
    }
}

proof fn lemma_scan_back(s: Seq<char>, a: int)
    requires
        0 <= a <= s.len(),
    ensures
        0 <= scan_back(s, a) <= a,
        forall|k: int| scan_back(s, a) <= k < a ==> s[k] != ':',
        scan_back(s, a) > 0 ==> s[scan_back(s, a) - 1] == ':',
    decreases a,
{
    if a > 0 && s[a - 1] != ':' {
        lemma_scan_back(s, a - 1);
    }
}

/// How a parseable URI divides into its five segments: the scheme is the
/// run of non-`:` characters before the first anchor; the domain, an
/// optional `:`-introduced digit port, the path and an optional
/// `?`-introduced query follow greedily.
pub open spec fn spec_spans(s: Seq<char>) -> ReqSpans
    recommends
        has_anchor(s),
{
    let a = first_anchor(s);
    let p0 = scan_back(s, a);
    let de = scan_while(s, a + 3, dom_pred());
    let port = if de < s.len() && s[de] == ':' && de + 1 < s.len() && is_digit_char(
        s[de + 1],
    ) {
        (de + 1, scan_while(s, de + 1, digit_pred()))
    } else {
        (de, de)
    };
    let ps = if port.1 > port.0 {
        port.1
    } else {
        de
    };
    let pe = scan_while(s, ps, path_pred());
    let query = if pe < s.len() && s[pe] == '?' {
        (pe + 1, scan_while(s, pe + 1, query_pred()))
    } else {
        (pe, pe)
    };
    ReqSpans { protocol: (p0, a), domain: (a + 3, de), port, path: (ps, pe), query }
}

/// What a parsed request denotes: the raw URI and its five segments.
pub struct RequestView {
    pub raw: Seq<char>,
    pub protocol: Seq<char>,
    pub domain: Seq<char>,
    pub port: Seq<char>,
    pub path: Seq<char>,
    pub query: Seq<char>,
    pub uri: Seq<char>,
}

/// The parse of a URI with an anchor.
pub open spec fn spec_request(s: Seq<char>) -> RequestView
    recommends
        has_anchor(s),
{
    let sp = spec_spans(s);
    RequestView {
        raw: s,
        protocol: s.subrange(sp.protocol.0, sp.protocol.1),
        domain: s.subrange(sp.domain.0, sp.domain.1),
        port: s.subrange(sp.port.0, sp.port.1),
        path: s.subrange(sp.path.0, sp.path.1),
        query: s.subrange(sp.query.0, sp.query.1),
        uri: s.subrange(sp.protocol.0, sp.query.1),
    }
}

/// A parsed Gemini request URI: the raw string and the spans of its five
/// segments.
#[derive(Debug)]
pub struct Request {
    uri: String,
    protocol: Span,
    domain: Span,
    port: Span,
    path: Span,
    query: Span,
}

impl View for Request {
    type V = RequestView;

    closed spec fn view(&self) -> RequestView {
        RequestView {
            raw: self.uri@,
            protocol: self.uri@.subrange(self.protocol.start as int, self.protocol.end as int),
            domain: self.uri@.subrange(self.domain.start as int, self.domain.end as int),
            port: self.uri@.subrange(self.port.start as int, self.port.end as int),
            path: self.uri@.subrange(self.path.start as int, self.path.end as int),
            query: self.uri@.subrange(self.query.start as int, self.query.end as int),
            uri: self.uri@.subrange(self.protocol.start as int, self.query.end as int),
        }
    }
}

fn dom_char(c: char) -> (r: bool)
    ensures
        r == is_dom_char(c),
{
    c != ':' && c != '/' && c != '?' && c != '\r' && c != '\n'
}

fn find_anchor(cs: &Vec<char>) -> (r: Option<usize>)
    ensures
        match r {
            Some(a) => anchor_ok(cs@, a as int) && forall|j: int| 0 <= j < a ==> !anchor_ok(cs@, j),
            None => !has_anchor(cs@),
        },
{
    let n = cs.len();
    if n < 5 {
        proof {
            assert forall|j: int| !anchor_ok(cs@, j) by {}
        }
        return None;
    }
    let mut i: usize = 1;
    while i <= n - 4
        invariant
            1 <= i,
            5 <= n,
            n == cs@.len(),
            forall|j: int| 0 <= j < i ==> !anchor_ok(cs@, j),
        decreases n - i,
    {
        if cs[i] == ':' && cs[i + 1] == '/' && cs[i + 2] == '/' && cs[i - 1] != ':' && dom_char(
            cs[i + 3],
        ) {
            return Some(i);
        }
        i = i + 1;
    }
    proof {
        assert forall|j: int| !anchor_ok(cs@, j) by {
            if j >= i {
                assert(j + 3 >= cs@.len() - 1);
            }
        }
    }
    None
}

impl Request {
    #[verifier::type_invariant]
    spec fn wf(&self) -> bool {
        let s = self.uri@;
        let sp = spec_spans(s);
        &&& has_anchor(s)
        &&& self.protocol.start == sp.protocol.0 && self.protocol.end == sp.protocol.1
        &&& self.domain.start == sp.domain.0 && self.domain.end == sp.domain.1
        &&& self.port.start == sp.port.0 && self.port.end == sp.port.1
        &&& self.path.start == sp.path.0 && self.path.end == sp.path.1
        &&& self.query.start == sp.query.0 && self.query.end == sp.query.1
    }

    /// Parse the segments of a URI.
    pub fn new(uri: String) -> (r: Result<Request, GemcapsError>)
        ensures
            r is Ok <==> has_anchor(uri@),
            r is Ok ==> r.unwrap()@ == spec_request(uri@),
    {
        let cs = chars_vec(uri.as_str());
        let ghost s = uri@;
        let n = cs.len();
        let a = match find_anchor(&cs) {
            Some(a) => a,
            None => {
                return Err(GemcapsError::new("invalid request URI"));
            },
        };
        proof {
            lemma_first_anchor(s);
            assert(has_anchor(s));
            if first_anchor(s) < a {
                assert(!anchor_ok(s, first_anchor(s)));
            }
            assert(first_anchor(s) == a);
        }
        // scheme start
        let mut p0 = a;
        while p0 > 0 && cs[p0 - 1] != ':'
            invariant
                p0 <= a,
                a < n,
                n == cs@.len(),
                cs@ == s,
                forall|k: int| p0 <= k < a ==> s[k] != ':',
            decreases p0,
        {
            p0 = p0 - 1;
        }
        proof {
            lemma_scan_back(s, a as int);
            if scan_back(s, a as int) < p0 {
                assert(s[p0 - 1] != ':');
            }
            if scan_back(s, a as int) > p0 {
                assert(s[scan_back(s, a as int) - 1] != ':');
            }
            assert(scan_back(s, a as int) == p0 as int);
        }
        // domain
        let d0 = a + 3;
        let mut de = d0;
        while de < n && dom_char(cs[de])
            invariant
                d0 <= de <= n,
                n == cs@.len(),
                cs@ == s,
                forall|k: int| d0 <= k < de ==> is_dom_char(s[k]),
            decreases n - de,
        {
            de = de + 1;
        }
        proof {
            lemma_scan_while(s, d0 as int, dom_pred());
            let sw = scan_while(s, d0 as int, dom_pred());
            assert(dom_pred()(s[de as int]) == is_dom_char(s[de as int])) by {}
            if sw < de {
                assert(dom_pred()(s[sw]));
            }
            if sw > de {
                assert(dom_pred()(s[de as int]));
            }
            assert(sw == de as int);
        }
        // port
        let (q0, qe) = if de < n && cs[de] == ':' && de + 1 < n && cs[de + 1] >= '0' && cs[de + 1]
            <= '9' {
            let p_start = de + 1;
            let mut pe = p_start;
            while pe < n && cs[pe] >= '0' && cs[pe] <= '9'
                invariant
                    p_start <= pe <= n,
                    n == cs@.len(),
                    cs@ == s,
                    forall|k: int| p_start <= k < pe ==> is_digit_char(s[k]),
                decreases n - pe,
            {
                pe = pe + 1;
            }
            proof {
                lemma_scan_while(s, p_start as int, digit_pred());
                let sw = scan_while(s, p_start as int, digit_pred());
                if sw < pe {
                    assert(digit_pred()(s[sw]));
                }
                if sw > pe {
                    assert(digit_pred()(s[pe as int]));
                }
                assert(sw == pe as int);
            }
            (p_start, pe)
        } else {
            (de, de)
        };
        // path
        let ps = if qe > q0 {
            qe
        } else {
            de
        };
        let mut pp = ps;
        while pp < n && cs[pp] != '?' && cs[pp] != '\r' && cs[pp] != '\n'
            invariant
                ps <= pp <= n,
                n == cs@.len(),
                cs@ == s,
                forall|k: int| ps <= k < pp ==> is_path_char(s[k]),
            decreases n - pp,
        {
            pp = pp + 1;
        }
        proof {
            lemma_scan_while(s, ps as int, path_pred());
            let sw = scan_while(s, ps as int, path_pred());
            if sw < pp {
                assert(path_pred()(s[sw]));
            }
            if sw > pp {
                assert(path_pred()(s[pp as int]));
            }
            assert(sw == pp as int);
        }
        // query
        let (y0, ye) = if pp < n && cs[pp] == '?' {
            let y_start = pp + 1;
            let mut ye = y_start;
            while ye < n && cs[ye] != '\r' && cs[ye] != '\n'
                invariant
                    y_start <= ye <= n,
                    n == cs@.len(),
                    cs@ == s,
                    forall|k: int| y_start <= k < ye ==> is_query_char(s[k]),
                decreases n - ye,
            {
                ye = ye + 1;
            }
            proof {
                lemma_scan_while(s, y_start as int, query_pred());
                let sw = scan_while(s, y_start as int, query_pred());
                if sw < ye {
                    assert(query_pred()(s[sw]));
                }
                if sw > ye {
                    assert(query_pred()(s[ye as int]));
                }
                assert(sw == ye as int);
            }
            (y_start, ye)
        } else {
            (pp, pp)
        };
        let r = Request {
            uri,
            protocol: Span { start: p0, end: a },
            domain: Span { start: d0, end: de },
            port: Span { start: q0, end: qe },
            path: Span { start: ps, end: pp },
            query: Span { start: y0, end: ye },
        };
        Ok(r)
    }

    /// The scheme of the URI.
    pub fn protocol<'t>(&'t self) -> (r: &'t str)
        ensures
            r@ == self@.protocol,
    {
        proof {
            use_type_invariant(self);
            self.lemma_spans_bounded();
        }
        self.uri.as_str().substring_char(self.protocol.start, self.protocol.end)
    }

    /// The domain of the URI.
    pub fn domain<'t>(&'t self) -> (r: &'t str)
        ensures
            r@ == self@.domain,
    {
        proof {
            use_type_invariant(self);
            self.lemma_spans_bounded();
        }
        self.uri.as_str().substring_char(self.domain.start, self.domain.end)
    }

    /// The port digits, without the leading `:`; empty where none was given.
    pub fn port<'t>(&'t self) -> (r: &'t str)
        ensures
            r@ == self@.port,
    {
        proof {
            use_type_invariant(self);
            self.lemma_spans_bounded();
        }
        self.uri.as_str().substring_char(self.port.start, self.port.end)
    }

    /// The path of the URI; possibly empty.
    pub fn path<'t>(&'t self) -> (r: &'t str)
        ensures
            r@ == self@.path,
    {
        proof {
            use_type_invariant(self);
            self.lemma_spans_bounded();
        }
        self.uri.as_str().substring_char(self.path.start, self.path.end)
    }

    /// The query, without the leading `?`; empty where none was given.
    pub fn query<'t>(&'t self) -> (r: &'t str)
        ensures
            r@ == self@.query,
    {
        proof {
            use_type_invariant(self);
            self.lemma_spans_bounded();
        }
        self.uri.as_str().substring_char(self.query.start, self.query.end)
    }

    /// The URI from the scheme through the query, without what surrounds it.
    pub fn uri<'t>(&'t self) -> (r: &'t str)
        ensures
            r@ == self@.uri,
    {
        proof {
            use_type_invariant(self);
            self.lemma_spans_bounded();
        }
        self.uri.as_str().substring_char(self.protocol.start, self.query.end)
    }

    /// The raw string the request was parsed from.
    pub fn raw<'t>(&'t self) -> (r: &'t str)
        ensures
            r@ == self@.raw,
    {
        self.uri.as_str()
    }

    proof fn lemma_spans_bounded(&self)
        requires
            self.wf(),
        ensures
            0 <= self.protocol.start <= self.protocol.end,
            self.protocol.end + 3 < self.uri@.len(),
            self.protocol.end < self.domain.start <= self.domain.end,
            self.domain.end <= self.port.start <= self.port.end,
            self.port.end <= self.path.start <= self.path.end,
            self.path.end <= self.query.start <= self.query.end <= self.uri@.len(),
    {
        let s = self.uri@;
        lemma_first_anchor(s);
        let a = first_anchor(s);
        lemma_scan_back(s, a);
        lemma_scan_while(s, a + 3, dom_pred());
        let de = scan_while(s, a + 3, dom_pred());
        if de < s.len() && s[de] == ':' && de + 1 < s.len() && is_digit_char(s[de + 1]) {
            lemma_scan_while(s, de + 1, digit_pred());
        }
        let sp = spec_spans(s);
        lemma_scan_while(s, sp.path.0, path_pred());
        let pe = sp.path.1;
        if pe < s.len() && s[pe] == '?' {
            lemma_scan_while(s, pe + 1, query_pred());
        }
    }
}

impl Clone for Request {
    fn clone(&self) -> (r: Self)
        ensures
            r@ == self@,
    {
        proof {
            use_type_invariant(self);
        }
        Request {
            uri: self.uri.clone(),
            protocol: self.protocol,
            domain: self.domain,
            port: self.port,
            path: self.path,
            query: self.query,
        }
    }
}

impl PartialEq for Request {
    /// Two requests are the same cache key when their raw URIs agree.
    fn eq(&self, other: &Request) -> (r: bool) {
        crate::strutil::str_eq(self.uri.as_str(), other.uri.as_str())
    }
}

impl vstd::std_specs::cmp::PartialEqSpecImpl for Request {
    open spec fn obeys_eq_spec() -> bool {
        true
    }

    open spec fn eq_spec(&self, other: &Request) -> bool {
        self@.raw == other@.raw
    }
}

/// The five segments, with their separators, concatenate to the trimmed
/// URI: what `uri()` returns is the scheme, `://`, the domain, the port
/// after `:` where one was given, the path, and the query after `?` where
/// one was given.
#[verifier::rlimit(50)]
#[verifier::spinoff_prover]
pub proof fn lemma_request_segments(s: Seq<char>)
    requires
        has_anchor(s),
    ensures
        ({
            let v = spec_request(s);
            let sp = spec_spans(s);
            v.uri =~= v.protocol + seq![':', '/', '/'] + v.domain + (if sp.port.1 > sp.port.0 {
                seq![':'] + v.port
            } else {
                Seq::<char>::empty()
            }) + v.path + (if sp.query.0 > sp.path.1 {
                seq!['?'] + v.query
            } else {
                Seq::<char>::empty()
            })
        }),
{
    lemma_first_anchor(s);
    let a = first_anchor(s);
    lemma_scan_back(s, a);
    lemma_scan_while(s, a + 3, dom_pred());
    let de = scan_while(s, a + 3, dom_pred());
    if de < s.len() && s[de] == ':' && de + 1 < s.len() && is_digit_char(s[de + 1]) {
        lemma_scan_while(s, de + 1, digit_pred());
    }
    let sp = spec_spans(s);
    lemma_scan_while(s, sp.path.0, path_pred());
    let pe = sp.path.1;
    if pe < s.len() && s[pe] == '?' {
        lemma_scan_while(s, pe + 1, query_pred());
    }
    assert(s.subrange(a, a + 3) =~= seq![':', '/', '/']);
    if sp.port.1 > sp.port.0 {
        assert(s.subrange(sp.domain.1, sp.port.0) =~= seq![':']);
    }
    if sp.query.0 > sp.path.1 {
        assert(s.subrange(sp.path.1, sp.query.0) =~= seq!['?']);
    }
}


/// The Gemini response value: one variant per status code; `meta` carries
/// the prompt, redirect target, MIME type or message, and a Success
/// response also carries a body.
#[derive(Debug)]
pub enum Response {
    /// 10 INPUT
    Input { prompt: String },
    /// 11 SENSITIVE INPUT
    InputSensitive { prompt: String },
    /// 20 SUCCESS
    Success { meta: String, body: Vec<u8> },
    /// 30 TEMPORARY REDIRECT
    RedirectTemp { redirect: String },
    /// 31 PERMANENT REDIRECT
    RedirectPerm { redirect: String },
    /// 40 TEMPORARY FAILURE
    FailureTemp { message: String },
    /// 41 SERVER UNAVAILABLE
    ServerUnavail { message: String },
    /// 42 CGI ERROR
    CgiError { message: String },
    /// 43 PROXY ERROR
    ProxyError { message: String },
    /// 44 SLOW DOWN
    SlowDown { message: String },
    /// 50 PERMANENT FAILURE
    FailurePerm { message: String },
    /// 51 NOT FOUND
    NotFound { message: String },
    /// 52 GONE
    Gone { message: String },
    /// 53 PROXY REFUSED
    ProxyRefused { message: String },
    /// 59 BAD REQUEST
    BadRequest { message: String },
    /// 60 CERTIFICATE REQUIRED
    CertRequired { message: String },
    /// 61 CERTIFICATE NOT AUTHORIZED
    CertNotAuthorized { message: String },
    /// 62 CERTIFICATE NOT VALID
    CertInvalid { message: String },
}

/// The status code of a response.
pub open spec fn spec_status(r: &Response) -> u8 {
    match r {
        Response::Input { .. } => 10,
        Response::InputSensitive { .. } => 11,
        Response::Success { .. } => 20,
        Response::RedirectTemp { .. } => 30,
        Response::RedirectPerm { .. } => 31,
        Response::FailureTemp { .. } => 40,
        Response::ServerUnavail { .. } => 41,
        Response::CgiError { .. } => 42,
        Response::ProxyError { .. } => 43,
        Response::SlowDown { .. } => 44,
        Response::FailurePerm { .. } => 50,
        Response::NotFound { .. } => 51,
        Response::Gone { .. } => 52,
        Response::ProxyRefused { .. } => 53,
        Response::BadRequest { .. } => 59,
        Response::CertRequired { .. } => 60,
        Response::CertNotAuthorized { .. } => 61,
        Response::CertInvalid { .. } => 62,
    }
}

/// The meta line of a response.
pub open spec fn spec_meta(r: &Response) -> Seq<char> {
    match r {
        Response::Input { prompt } => prompt@,
        Response::InputSensitive { prompt } => prompt@,
        Response::Success { meta, .. } => meta@,
        Response::RedirectTemp { redirect } => redirect@,
        Response::RedirectPerm { redirect } => redirect@,
        Response::FailureTemp { message } => message@,
        Response::ServerUnavail { message } => message@,
        Response::CgiError { message } => message@,
        Response::ProxyError { message } => message@,
        Response::SlowDown { message } => message@,
        Response::FailurePerm { message } => message@,
        Response::NotFound { message } => message@,
        Response::Gone { message } => message@,
        Response::ProxyRefused { message } => message@,
        Response::BadRequest { message } => message@,
        Response::CertRequired { message } => message@,
        Response::CertNotAuthorized { message } => message@,
        Response::CertInvalid { message } => message@,
    }
}

/// The body of a response: only a Success carries one.
pub open spec fn spec_body(r: &Response) -> Option<Seq<u8>> {
    match r {
        Response::Success { body, .. } => Some(body@),
        _ => None,
    }
}

/// The human readable name of each response kind.
pub open spec fn spec_name(r: &Response) -> Seq<char> {
    match r {
        Response::Input { .. } => "input"@,
        Response::InputSensitive { .. } => "sensitive input"@,
        Response::Success { .. } => "success"@,
        Response::RedirectTemp { .. } => "temporary redirect"@,
        Response::RedirectPerm { .. } => "permanent redirect"@,
        Response::FailureTemp { .. } => "temporary failure"@,
        Response::ServerUnavail { .. } => "server unavailable"@,
        Response::CgiError { .. } => "cgi error"@,
        Response::ProxyError { .. } => "proxy error"@,
        Response::SlowDown { .. } => "slow down"@,
        Response::FailurePerm { .. } => "permanent failure"@,
        Response::NotFound { .. } => "not found"@,
        Response::Gone { .. } => "gone"@,
        Response::ProxyRefused { .. } => "proxy refused"@,
        Response::BadRequest { .. } => "bad request"@,
        Response::CertRequired { .. } => "certificate required"@,
        Response::CertNotAuthorized { .. } => "certificate not authorized"@,
        Response::CertInvalid { .. } => "certificate not valid"@,
    }
}

/// A status code some response variant carries.
pub open spec fn valid_status(st: u8) -> bool {
    st == 10 || st == 11 || st == 20 || st == 30 || st == 31 || st == 40 || st == 41 || st == 42
        || st == 43 || st == 44 || st == 50 || st == 51 || st == 52 || st == 53 || st == 59 || st
        == 60 || st == 61 || st == 62
}

/// The header line of a response: the two status digits, a space, the meta
/// line, and `\r\n`.
pub open spec fn spec_header(r: &Response) -> Seq<char> {
    seq![digit_char(spec_status(r) / 10), digit_char(spec_status(r) % 10), ' '] + spec_meta(r)
        + seq!['\r', '\n']
}

/// The wire form of a response: the UTF-8 bytes of the header, then the
/// body where there is one.
pub open spec fn spec_to_bytes(r: &Response) -> Seq<u8> {
    vstd::utf8::encode_utf8(spec_header(r)) + match spec_body(r) {
        Some(b) => b,
        None => Seq::<u8>::empty(),
    }
}

/// The meta line never carries a carriage return or a line feed.
pub open spec fn meta_wf(r: &Response) -> bool {
    forall|i: int|
        0 <= i < spec_meta(r).len() ==> spec_meta(r)[i] != '\r' && spec_meta(r)[i] != '\n'
}

impl Response {
    /// 10 The resource accepts a line of user input; the meta line is a prompt.
    pub fn input(prompt: &str) -> (r: Self)
        ensures
            spec_status(&r) == 10,
            spec_meta(&r) == prompt@,
            spec_body(&r) is None,
    {
        Response::Input { prompt: prompt.to_owned() }
    }

    /// 11 As input, but the user's answer must not be echoed.
    pub fn input_sensitive(prompt: &str) -> (r: Self)
        ensures
            spec_status(&r) == 11,
            spec_meta(&r) == prompt@,
            spec_body(&r) is None,
    {
        Response::InputSensitive { prompt: prompt.to_owned() }
    }

    /// 20 SUCCESS: the request was handled; the meta line is the MIME type
    /// of the body that follows.
    pub fn success(meta: &str, body: Vec<u8>) -> (r: Self)
        ensures
            spec_status(&r) == 20,
            spec_meta(&r) == meta@,
            spec_body(&r) == Some(body@),
    {
        Response::Success { meta: meta.to_owned(), body }
    }

    /// 30 The resource lives at another URL for now; the meta line is that URL.
    pub fn redirect_temp(redirect: &str) -> (r: Self)
        ensures
            spec_status(&r) == 30,
            spec_meta(&r) == redirect@,
            spec_body(&r) is None,
    {
        Response::RedirectTemp { redirect: redirect.to_owned() }
    }

    /// 31 The resource should be requested from the new URL from now on.
    pub fn redirect_perm(redirect: &str) -> (r: Self)
        ensures
            spec_status(&r) == 31,
            spec_meta(&r) == redirect@,
            spec_body(&r) is None,
    {
        Response::RedirectPerm { redirect: redirect.to_owned() }
    }

    /// 40 The request failed, but an identical one may succeed later.
    pub fn failure_temp(message: &str) -> (r: Self)
        ensures
            spec_status(&r) == 40,
            spec_meta(&r) == message@,
            spec_body(&r) is None,
    {
        Response::FailureTemp { message: message.to_owned() }
    }

    /// 41 The server is unavailable due to overload or maintenance.
    pub fn server_unavail(message: &str) -> (r: Self)
        ensures
            spec_status(&r) == 41,
            spec_meta(&r) == message@,
            spec_body(&r) is None,
    {
        Response::ServerUnavail { message: message.to_owned() }
    }

    /// 42 A CGI process died unexpectedly or timed out.
    pub fn cgi_error(message: &str) -> (r: Self)
        ensures
            spec_status(&r) == 42,
            spec_meta(&r) == message@,
            spec_body(&r) is None,
    {
        Response::CgiError { message: message.to_owned() }
    }

    /// 43 A proxy transaction with the remote host failed.
    pub fn proxy_error(message: &str) -> (r: Self)
        ensures
            spec_status(&r) == 43,
            spec_meta(&r) == message@,
            spec_body(&r) is None,
    {
        Response::ProxyError { message: message.to_owned() }
    }

    /// 44 Rate limiting is in effect; the meta line is a number of seconds.
    pub fn slow_down(message: &str) -> (r: Self)
        ensures
            spec_status(&r) == 44,
            spec_meta(&r) == message@,
            spec_body(&r) is None,
    {
        Response::SlowDown { message: message.to_owned() }
    }

    /// 50 The request failed and identical requests will keep failing.
    pub fn failure_perm(message: &str) -> (r: Self)
        ensures
            spec_status(&r) == 50,
            spec_meta(&r) == message@,
            spec_body(&r) is None,
    {
        Response::FailurePerm { message: message.to_owned() }
    }

    /// 51 The resource could not be found, but may exist in the future.
    pub fn not_found(message: &str) -> (r: Self)
        ensures
            spec_status(&r) == 51,
            spec_meta(&r) == message@,
            spec_body(&r) is None,
    {
        Response::NotFound { message: message.to_owned() }
    }

    /// 52 The resource is gone and will not be available again.
    pub fn gone(message: &str) -> (r: Self)
        ensures
            spec_status(&r) == 52,
            spec_meta(&r) == message@,
            spec_body(&r) is None,
    {
        Response::Gone { message: message.to_owned() }
    }

    /// 53 The resource is at a domain this server does not proxy for.
    pub fn proxy_refused(message: &str) -> (r: Self)
        ensures
            spec_status(&r) == 53,
            spec_meta(&r) == message@,
            spec_body(&r) is None,
    {
        Response::ProxyRefused { message: message.to_owned() }
    }

    /// 59 The request could not be parsed.
    pub fn bad_request(message: &str) -> (r: Self)
        ensures
            spec_status(&r) == 59,
            spec_meta(&r) == message@,
            spec_body(&r) is None,
    {
        Response::BadRequest { message: message.to_owned() }
    }

    /// 60 The resource requires a client certificate.
    pub fn cert_required(message: &str) -> (r: Self)
        ensures
            spec_status(&r) == 60,
            spec_meta(&r) == message@,
            spec_body(&r) is None,
    {
        Response::CertRequired { message: message.to_owned() }
    }

    /// 61 The client certificate is not authorised for this resource.
    pub fn cert_not_authorized(message: &str) -> (r: Self)
        ensures
            spec_status(&r) == 61,
            spec_meta(&r) == message@,
            spec_body(&r) is None,
    {
        Response::CertNotAuthorized { message: message.to_owned() }
    }

    /// 62 The client certificate itself was not accepted.
    pub fn cert_invalid(message: &str) -> (r: Self)
        ensures
            spec_status(&r) == 62,
            spec_meta(&r) == message@,
            spec_body(&r) is None,
    {
        Response::CertInvalid { message: message.to_owned() }
    }

    /// Get the <STATUS> part of the response header.
    pub fn status(&self) -> (r: u8)
        ensures
            r == spec_status(self),
    {
        match self {
            Response::Input { .. } => 10,
            Response::InputSensitive { .. } => 11,
            Response::Success { .. } => 20,
            Response::RedirectTemp { .. } => 30,
            Response::RedirectPerm { .. } => 31,
            Response::FailureTemp { .. } => 40,
            Response::ServerUnavail { .. } => 41,
            Response::CgiError { .. } => 42,
            Response::ProxyError { .. } => 43,
            Response::SlowDown { .. } => 44,
            Response::FailurePerm { .. } => 50,
            Response::NotFound { .. } => 51,
            Response::Gone { .. } => 52,
            Response::ProxyRefused { .. } => 53,
            Response::BadRequest { .. } => 59,
            Response::CertRequired { .. } => 60,
            Response::CertNotAuthorized { .. } => 61,
            Response::CertInvalid { .. } => 62,
        }
    }

    /// Get the <META> part of the response header.
    pub fn meta(&self) -> (r: &str)
        ensures
            r@ == spec_meta(self),
    {
        match self {
            Response::Input { prompt } => prompt.as_str(),
            Response::InputSensitive { prompt } => prompt.as_str(),
            Response::Success { meta, .. } => meta.as_str(),
            Response::RedirectTemp { redirect } => redirect.as_str(),
            Response::RedirectPerm { redirect } => redirect.as_str(),
            Response::FailureTemp { message } => message.as_str(),
            Response::ServerUnavail { message } => message.as_str(),
            Response::CgiError { message } => message.as_str(),
            Response::ProxyError { message } => message.as_str(),
            Response::SlowDown { message } => message.as_str(),
            Response::FailurePerm { message } => message.as_str(),
            Response::NotFound { message } => message.as_str(),
            Response::Gone { message } => message.as_str(),
            Response::ProxyRefused { message } => message.as_str(),
            Response::BadRequest { message } => message.as_str(),
            Response::CertRequired { message } => message.as_str(),
            Response::CertNotAuthorized { message } => message.as_str(),
            Response::CertInvalid { message } => message.as_str(),
        }
    }

    /// Get the human readable name of this response kind.
    pub fn name(&self) -> (r: &'static str)
        ensures
            r@ == spec_name(self),
    {
        match self {
            Response::Input { .. } => "input",
            Response::InputSensitive { .. } => "sensitive input",
            Response::Success { .. } => "success",
            Response::RedirectTemp { .. } => "temporary redirect",
            Response::RedirectPerm { .. } => "permanent redirect",
            Response::FailureTemp { .. } => "temporary failure",
            Response::ServerUnavail { .. } => "server unavailable",
            Response::CgiError { .. } => "cgi error",
            Response::ProxyError { .. } => "proxy error",
            Response::SlowDown { .. } => "slow down",
            Response::FailurePerm { .. } => "permanent failure",
            Response::NotFound { .. } => "not found",
            Response::Gone { .. } => "gone",
            Response::ProxyRefused { .. } => "proxy refused",
            Response::BadRequest { .. } => "bad request",
            Response::CertRequired { .. } => "certificate required",
            Response::CertNotAuthorized { .. } => "certificate not authorized",
            Response::CertInvalid { .. } => "certificate not valid",
        }
    }

    /// Get the body of this response.
    pub fn body(&self) -> (r: Option<&Vec<u8>>)
        ensures
            r is Some <==> spec_body(self) is Some,
            r is Some ==> r.unwrap()@ == spec_body(self).unwrap(),
    {
        match self {
            Response::Success { body, .. } => Some(body),
            _ => None,
        }
    }

    /// Get the full header of this response.
    pub fn header(&self) -> (r: String)
        ensures
            r@ == spec_header(self),
    {
        let st = self.status();
        let mut h = String::new();
        h.append(digit_str(st / 10));
        h.append(digit_str(st % 10));
        h.append(" ");
        h.append(self.meta());
        h.append("\r\n");
        proof {
            reveal_strlit(" ");
            reveal_strlit("\r\n");
            assert(" "@ =~= seq![' ']);
            assert("\r\n"@ =~= seq!['\r', '\n']);
            assert(h@ =~= spec_header(self));
        }
        h
    }

    /// Get safe human readable information about this response: its status
    /// and name.
    pub fn info(&self) -> (r: String)
        ensures
            r@ == seq![
                digit_char(spec_status(self) / 10),
                digit_char(spec_status(self) % 10),
                ' ',
                '(',
            ] + spec_name(self) + seq![')'],
    {
        let st = self.status();
        let mut h = String::new();
        h.append(digit_str(st / 10));
        h.append(digit_str(st % 10));
        h.append(" (");
        h.append(self.name());
        h.append(")");
        proof {
            reveal_strlit(" (");
            reveal_strlit(")");
            assert(" ("@ =~= seq![' ', '(']);
            assert(")"@ =~= seq![')']);
            assert(h@ =~= seq![
                digit_char(spec_status(self) / 10),
                digit_char(spec_status(self) % 10),
                ' ',
                '(',
            ] + spec_name(self) + seq![')']);
        }
        h
    }

    /// The full wire form: the header, then the body where there is one.
    pub fn to_bytes(&self) -> (r: Vec<u8>)
        ensures
            r@ == spec_to_bytes(self),
    {
        let h = self.header();
        let mut out = h.as_str().as_bytes_vec();
        match self {
            Response::Success { body, .. } => {
                let mut i: usize = 0;
                while i < body.len()
                    invariant
                        i <= body@.len(),
                        out@ == vstd::utf8::encode_utf8(spec_header(self)) + body@.take(i as int),
                    decreases body@.len() - i,
                {
                    out.push(body[i]);
                    proof {
                        assert(out@ =~= vstd::utf8::encode_utf8(spec_header(self)) + body@.take(
                            i + 1,
                        ));
                    }
                    i = i + 1;
                }
                proof {
                    assert(body@.take(body@.len() as int) =~= body@);
                }
            },
            _ => {
                proof {
                    assert(out@ + Seq::<u8>::empty() =~= out@);
                }
            },
        }
        out
    }
}


/// A blank byte that may separate the status from the meta line.
pub open spec fn is_blank_byte(b: u8) -> bool {
    b == 0x20 || b == 0x09
}

/// A byte the meta line may contain: anything but CR and LF.
pub open spec fn is_meta_byte(b: u8) -> bool {
    b != 0x0d && b != 0x0a
}

/// An ASCII digit byte.
pub open spec fn is_digit_byte(b: u8) -> bool {
    0x30 <= b <= 0x39
}

pub open spec fn blank_bpred() -> spec_fn(u8) -> bool {
    |b: u8| is_blank_byte(b)
}

pub open spec fn meta_bpred() -> spec_fn(u8) -> bool {
    |b: u8| is_meta_byte(b)
}

/// How wire bytes are read back as a response: two status digits, an
/// optional run of blanks, the meta bytes up to the line end, `\r\n` or a
/// bare `\n`, and the body. `None` where the framing, the status code or
/// the meta's UTF-8 is bad.
pub open spec fn spec_parse(b: Seq<u8>) -> Option<(u8, Seq<char>, Seq<u8>)> {
    if b.len() < 2 || !is_digit_byte(b[0]) || !is_digit_byte(b[1]) {
        None
    } else {
        let st = ((b[0] - 0x30) * 10 + (b[1] - 0x30)) as u8;
        let be = scan_while(b, 2, blank_bpred());
        let me = scan_while(b, be, meta_bpred());
        if me >= b.len() {
            None
        } else if be == 2 && me > 2 {
            None
        } else if b[me] == 0x0d && !(me + 1 < b.len() && b[me + 1] == 0x0a) {
            None
        } else {
            let bs = if b[me] == 0x0d {
                me + 2
            } else {
                me + 1
            };
            let meta_bytes = b.subrange(be, me);
            if !vstd::utf8::valid_utf8(meta_bytes) || !valid_status(st) {
                None
            } else {
                Some((st, vstd::utf8::decode_utf8(meta_bytes), b.skip(bs)))
            }
        }
    }
}

fn blank_at(bytes: &[u8], i: usize) -> (r: bool)
    requires
        i < bytes@.len(),
    ensures
        r == is_blank_byte(bytes@[i as int]),
{
    let c = *vstd::slice::slice_index_get(bytes, i);
    c == 0x20 || c == 0x09
}

fn meta_at(bytes: &[u8], i: usize) -> (r: bool)
    requires
        i < bytes@.len(),
    ensures
        r == is_meta_byte(bytes@[i as int]),
{
    let c = *vstd::slice::slice_index_get(bytes, i);
    c != 0x0d && c != 0x0a
}

impl Response {
    /// Recover a response from wire bytes; the body is kept only for a
    /// Success.
    pub fn parse(bytes: &[u8]) -> (r: Result<Response, GemcapsError>)
        ensures
            r is Ok <==> spec_parse(bytes@) is Some,
            r is Ok ==> ({
                let t = spec_parse(bytes@).unwrap();
                &&& spec_status(&r.unwrap()) == t.0
                &&& spec_meta(&r.unwrap()) == t.1
                &&& spec_body(&r.unwrap()) == (if t.0 == 20 {
                    Some(t.2)
                } else {
                    None::<Seq<u8>>
                })
            }),
    {
        let ghost bv = bytes@;
        let n = bytes.len();
        if n < 2 {
            return Err(GemcapsError::new("invalid response format"));
        }
        let b0 = *vstd::slice::slice_index_get(bytes, 0);
        let b1 = *vstd::slice::slice_index_get(bytes, 1);
        if !(0x30 <= b0 && b0 <= 0x39) || !(0x30 <= b1 && b1 <= 0x39) {
            return Err(GemcapsError::new("invalid response format"));
        }
        let st = (b0 - 0x30) * 10 + (b1 - 0x30);
        // skip the blanks after the status digits
        let mut be: usize = 2;
        while be < n && blank_at(bytes, be)
            invariant
                2 <= be <= n,
                n == bv.len(),
                bytes@ == bv,
                forall|k: int| 2 <= k < be ==> is_blank_byte(bv[k]),
            decreases n - be,
        {
            be = be + 1;
        }
        proof {
            lemma_scan_while(bv, 2, blank_bpred());
            let sw = scan_while(bv, 2, blank_bpred());
            if sw < be {
                assert(blank_bpred()(bv[sw]));
            }
            if sw > be {
                assert(blank_bpred()(bv[be as int]));
            }
            assert(sw == be as int);
        }
        // the meta line runs to the first CR or LF
        let mut me: usize = be;
        while me < n && meta_at(bytes, me)
            invariant
                be <= me <= n,
                n == bv.len(),
                bytes@ == bv,
                forall|k: int| be <= k < me ==> is_meta_byte(bv[k]),
            decreases n - me,
        {
            me = me + 1;
        }
        proof {
            lemma_scan_while(bv, be as int, meta_bpred());
            let sw = scan_while(bv, be as int, meta_bpred());
            if sw < me {
                assert(meta_bpred()(bv[sw]));
            }
            if sw > me {
                assert(meta_bpred()(bv[me as int]));
            }
            assert(sw == me as int);
        }
        if me >= n {
            return Err(GemcapsError::new("invalid response format"));
        }
        if be == 2 && me > 2 {
            return Err(GemcapsError::new("invalid response format"));
        }
        let lead = *vstd::slice::slice_index_get(bytes, me);
        let bs = if lead == 0x0d {
            if !(me + 1 < n && *vstd::slice::slice_index_get(bytes, me + 1) == 0x0a) {
                return Err(GemcapsError::new("invalid response format"));
            }
            me + 2
        } else {
            me + 1
        };
        let meta_bytes = vstd::slice::slice_to_vec(vstd::slice::slice_subrange(bytes, be, me));
        let meta = match crate::strutil::utf8_to_string(meta_bytes) {
            Some(m) => m,
            None => {
                return Err(GemcapsError::new("invalid response format"));
            },
        };
        let r = match st {
            10u8 => Response::Input { prompt: meta },
            11u8 => Response::InputSensitive { prompt: meta },
            20u8 => Response::Success {
                meta,
                body: vstd::slice::slice_to_vec(vstd::slice::slice_subrange(bytes, bs, n)),
            },
            30u8 => Response::RedirectTemp { redirect: meta },
            31u8 => Response::RedirectPerm { redirect: meta },
            40u8 => Response::FailureTemp { message: meta },
            41u8 => Response::ServerUnavail { message: meta },
            42u8 => Response::CgiError { message: meta },
            43u8 => Response::ProxyError { message: meta },
            44u8 => Response::SlowDown { message: meta },
            50u8 => Response::FailurePerm { message: meta },
            51u8 => Response::NotFound { message: meta },
            52u8 => Response::Gone { message: meta },
            53u8 => Response::ProxyRefused { message: meta },
            59u8 => Response::BadRequest { message: meta },
            60u8 => Response::CertRequired { message: meta },
            61u8 => Response::CertNotAuthorized { message: meta },
            62u8 => Response::CertInvalid { message: meta },
            _ => {
                return Err(GemcapsError::new("invalid status"));
            },
        };
        proof {
            assert(bv.subrange(bs as int, n as int) =~= bv.skip(bs as int));
        }
        Ok(r)
    }
}


proof fn lemma_encode_concat(a: Seq<char>, b: Seq<char>)
    ensures
        vstd::utf8::encode_utf8(a + b) == vstd::utf8::encode_utf8(a) + vstd::utf8::encode_utf8(b),
    decreases a.len(),
{
    if a.len() == 0 {
        assert(a + b =~= b);
        assert(Seq::<u8>::empty() + vstd::utf8::encode_utf8(b) =~= vstd::utf8::encode_utf8(b));
    } else {
        lemma_encode_concat(a.drop_first(), b);
        assert((a + b).drop_first() =~= a.drop_first() + b);
        assert((a + b)[0] == a[0]);
        let e0 = vstd::utf8::encode_scalar(a[0] as u32);
        assert(e0 + (vstd::utf8::encode_utf8(a.drop_first()) + vstd::utf8::encode_utf8(b)) =~= (e0
            + vstd::utf8::encode_utf8(a.drop_first())) + vstd::utf8::encode_utf8(b));
    }
}

proof fn lemma_digit_char(d: u8)
    requires
        d < 10,
    ensures
        digit_char(d) as u32 == 0x30 + d,
        vstd::utf8::encode_scalar(digit_char(d) as u32) =~= seq![(0x30 + d) as u8],
{
    let c = digit_char(d);
    assert(c as u32 == 0x30 + d);
    let v = c as u32;
    assert(vstd::utf8::has_width_1_encoding(v));
    assert(vstd::utf8::leading_byte_width_1(v) == (0x30 + d) as u8) by (bit_vector)
        requires
            v == 0x30 + d && d < 10,
    ;
}

/// The UTF-8 bytes of a character free of CR and LF are free of the bytes
/// CR and LF; and its first byte is not a blank unless the character is.
proof fn lemma_encode_scalar_bytes(c: char)
    ensures
        forall|k: int|
            0 <= k < vstd::utf8::encode_scalar(c as u32).len() ==> ({
                let b = #[trigger] vstd::utf8::encode_scalar(c as u32)[k];
                &&& (b == 0x0d ==> c == '\r')
                &&& (b == 0x0a ==> c == '\n')
                &&& (b == 0x20 ==> c == ' ')
                &&& (b == 0x09 ==> c == '\t')
            }),
        vstd::utf8::encode_scalar(c as u32).len() >= 1,
{
    vstd::utf8::char_is_scalar(c);
    let v = c as u32;
    vstd::utf8::char_u32_cast(c, v);
    if vstd::utf8::has_width_1_encoding(v) {
        assert(vstd::utf8::leading_byte_width_1(v) == v as u8) by (bit_vector)
            requires
                v <= 0x7f,
        ;
        assert forall|k: int|
            0 <= k < vstd::utf8::encode_scalar(v).len() implies ({
            let b = #[trigger] vstd::utf8::encode_scalar(v)[k];
            &&& (b == 0x0d ==> c == '\r')
            &&& (b == 0x0a ==> c == '\n')
            &&& (b == 0x20 ==> c == ' ')
            &&& (b == 0x09 ==> c == '\t')
        }) by {
            let b = vstd::utf8::encode_scalar(v)[k];
            assert(b == v as u8);
            if b == 0x0d {
                assert(v == 0x0d) by (bit_vector)
                    requires
                        v <= 0x7f && v as u8 == 0x0d,
                ;
                assert(c == 0x0d as char);
            }
            if b == 0x0a {
                assert(v == 0x0a) by (bit_vector)
                    requires
                        v <= 0x7f && v as u8 == 0x0a,
                ;
                assert(c == 0x0a as char);
            }
            if b == 0x20 {
                assert(v == 0x20) by (bit_vector)
                    requires
                        v <= 0x7f && v as u8 == 0x20,
                ;
                assert(c == 0x20 as char);
            }
            if b == 0x09 {
                assert(v == 0x09) by (bit_vector)
                    requires
                        v <= 0x7f && v as u8 == 0x09,
                ;
                assert(c == 0x09 as char);
            }
        }
    } else {
        assert forall|k: int|
            0 <= k < vstd::utf8::encode_scalar(v).len() implies #[trigger] vstd::utf8::encode_scalar(
            v,
        )[k] >= 0x80 by {
            assert(forall|z: u32| #![auto] (0x80u8 | (z & 0x3F) as u8) >= 0x80) by (bit_vector);
            assert(forall|z: u32| #![auto] (0xC0u8 | ((z >> 6) & 0x1F) as u8) >= 0x80)
                by (bit_vector);
            assert(forall|z: u32| #![auto] (0xE0u8 | ((z >> 12) & 0x0F) as u8) >= 0x80)
                by (bit_vector);
            assert(forall|z: u32| #![auto] (0xF0u8 | ((z >> 18) & 0x7) as u8) >= 0x80)
                by (bit_vector);
        }
    }
}

/// The UTF-8 bytes of a meta line free of CR and LF never contain the CR
/// or LF byte, and the first byte of a meta line that does not start with
/// a blank is not a blank byte.
proof fn lemma_encode_meta(m: Seq<char>)
    requires
        forall|i: int| 0 <= i < m.len() ==> m[i] != '\r' && m[i] != '\n',
    ensures
        forall|k: int|
            0 <= k < vstd::utf8::encode_utf8(m).len() ==> is_meta_byte(
                vstd::utf8::encode_utf8(m)[k],
            ),
        m.len() > 0 ==> vstd::utf8::encode_utf8(m).len() >= 1,
        m.len() > 0 && m[0] != ' ' && m[0] != '\t' ==> !is_blank_byte(
            vstd::utf8::encode_utf8(m)[0],
        ),
    decreases m.len(),
{
    if m.len() > 0 {
        lemma_encode_scalar_bytes(m[0]);
        assert(forall|i: int|
            0 <= i < m.drop_first().len() ==> m.drop_first()[i] != '\r' && m.drop_first()[i]
                != '\n');
        lemma_encode_meta(m.drop_first());
        let e0 = vstd::utf8::encode_scalar(m[0] as u32);
        let rest = vstd::utf8::encode_utf8(m.drop_first());
        assert(vstd::utf8::encode_utf8(m) == e0 + rest);
        assert forall|k: int|
            0 <= k < vstd::utf8::encode_utf8(m).len() implies is_meta_byte(
            vstd::utf8::encode_utf8(m)[k],
        ) by {
            if k < e0.len() {
                assert(vstd::utf8::encode_utf8(m)[k] == e0[k]);
            } else {
                assert(vstd::utf8::encode_utf8(m)[k] == rest[k - e0.len()]);
            }
        }
        assert(vstd::utf8::encode_utf8(m)[0] == e0[0]);
    }
}

/// Response framing round trip: reading back the wire form of a response
/// yields its status, its meta line and, for a Success, its body. The meta
/// line must be free of CR and LF and must not begin with a blank, which
/// the bare wire form could not carry.
pub proof fn lemma_response_round_trip(r: &Response)
    requires
        meta_wf(r),
        spec_meta(r).len() > 0 ==> spec_meta(r)[0] != ' ' && spec_meta(r)[0] != '\t',
    ensures
        spec_parse(spec_to_bytes(r)) == Some(
            (
                spec_status(r),
                spec_meta(r),
                match spec_body(r) {
                    Some(b) => b,
                    None => Seq::<u8>::empty(),
                },
            ),
        ),
{
    broadcast use vstd::utf8::encode_utf8_valid_utf8, vstd::utf8::encode_utf8_decode_utf8;

    let st = spec_status(r);
    let m = spec_meta(r);
    let d1 = digit_char(st / 10);
    let d2 = digit_char(st % 10);
    let prefix = seq![d1, d2, ' '];
    let crlf = seq!['\r', '\n'];
    let header = spec_header(r);
    assert(header =~= prefix + m + crlf);
    lemma_encode_concat(prefix + m, crlf);
    lemma_encode_concat(prefix, m);
    assert(vstd::utf8::encode_utf8(header) == vstd::utf8::encode_utf8(prefix)
        + vstd::utf8::encode_utf8(m) + vstd::utf8::encode_utf8(crlf));
    lemma_digit_char(st / 10);
    lemma_digit_char(st % 10);
    let ep = vstd::utf8::encode_utf8(prefix);
    assert(ep =~= seq![(0x30 + st / 10) as u8, (0x30 + st % 10) as u8, 0x20]) by {
        lemma_encode_scalar_ascii(' ');
        assert(' ' as u8 == 0x20);
        assert(vstd::utf8::encode_utf8(Seq::<char>::empty()) =~= Seq::<u8>::empty());
        assert(seq![' '].drop_first() =~= Seq::<char>::empty());
        assert(vstd::utf8::encode_utf8(seq![' ']) =~= vstd::utf8::encode_scalar(' ' as u32)
            + vstd::utf8::encode_utf8(Seq::<char>::empty()));
        assert(vstd::utf8::encode_utf8(seq![' ']) =~= seq![0x20u8]);
        assert(seq![d2, ' '].drop_first() =~= seq![' ']);
        assert(vstd::utf8::encode_utf8(seq![d2, ' ']) =~= vstd::utf8::encode_scalar(d2 as u32)
            + vstd::utf8::encode_utf8(seq![' ']));
        assert(prefix.drop_first() =~= seq![d2, ' ']);
        assert(vstd::utf8::encode_utf8(prefix) =~= vstd::utf8::encode_scalar(d1 as u32)
            + vstd::utf8::encode_utf8(seq![d2, ' ']));
    }
    let ec = vstd::utf8::encode_utf8(crlf);
    assert(ec =~= seq![0x0du8, 0x0au8]) by {
        lemma_encode_scalar_ascii('\r');
        lemma_encode_scalar_ascii('\n');
        assert('\r' as u8 == 0x0d);
        assert('\n' as u8 == 0x0a);
        assert(vstd::utf8::encode_utf8(Seq::<char>::empty()) =~= Seq::<u8>::empty());
        assert(seq!['\n'].drop_first() =~= Seq::<char>::empty());
        assert(vstd::utf8::encode_utf8(seq!['\n']) =~= vstd::utf8::encode_scalar('\n' as u32)
            + vstd::utf8::encode_utf8(Seq::<char>::empty()));
        assert(vstd::utf8::encode_utf8(seq!['\n']) =~= seq![0x0au8]);
        assert(crlf.drop_first() =~= seq!['\n']);
        assert(vstd::utf8::encode_utf8(crlf) =~= vstd::utf8::encode_scalar('\r' as u32)
            + vstd::utf8::encode_utf8(seq!['\n']));
    }
    let em = vstd::utf8::encode_utf8(m);
    lemma_encode_meta(m);
    let bodyb = match spec_body(r) {
        Some(b) => b,
        None => Seq::<u8>::empty(),
    };
    let b = spec_to_bytes(r);
    assert(b =~= ep + em + ec + bodyb);
    let el = em.len() as int;
    assert(b[0] == (0x30 + st / 10) as u8);
    assert(b[1] == (0x30 + st % 10) as u8);
    assert(is_digit_byte(b[0]) && is_digit_byte(b[1]));
    assert((b[0] - 0x30) * 10 + (b[1] - 0x30) == st);
    assert(b[2] == 0x20);
    // the blank run is exactly the one space
    lemma_scan_while(b, 2, blank_bpred());
    let be = scan_while(b, 2, blank_bpred());
    assert(forall|k: int| 0 <= k < el ==> b[3 + k] == em[k]);
    if el > 0 {
        assert(!is_blank_byte(b[3]));
    } else {
        assert(b[3] == 0x0d);
    }
    if be > 3 {
        assert(blank_bpred()(b[3]));
        assert(false);
    }
    if be < 3 {
        assert(!blank_bpred()(b[2]));
        assert(false);
    }
    // the meta run is exactly the encoded meta line
    lemma_scan_while(b, 3, meta_bpred());
    let me = scan_while(b, 3, meta_bpred());
    assert(b[3 + el] == 0x0d);
    if me > 3 + el {
        assert(meta_bpred()(b[3 + el]));
        assert(false);
    }
    if me < 3 + el {
        assert(is_meta_byte(em[me - 3]));
        assert(!meta_bpred()(b[me]));
        assert(false);
    }
    assert(me == 3 + el);
    assert(me < b.len());
    assert(b[me + 1] == 0x0a);
    assert(b.subrange(3, me) =~= em);
    assert(vstd::utf8::valid_utf8(em));
    assert(vstd::utf8::decode_utf8(em) == m);
    assert(valid_status(st));
    assert(b.skip(me + 2) =~= bodyb);
}

proof fn lemma_encode_scalar_ascii(c: char)
    requires
        c as u32 <= 0x7f,
    ensures
        vstd::utf8::encode_scalar(c as u32) =~= seq![c as u8],
{
    let v = c as u32;
    assert(vstd::utf8::leading_byte_width_1(v) == v as u8) by (bit_vector)
        requires
            v <= 0x7f,
    ;
    assert(c as u8 == v as u8);
}


} // verus!
