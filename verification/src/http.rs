//! HTTP resolver support: configuration, the verified compute half of the
//! adapter (extracting an address from a response body), and the evidence
//! attached to a successful resolution.

use vstd::prelude::*;

use crate::addr::Addr;
use crate::addr::SocketAddr;
use crate::addr::copy_range;
use crate::addr::spec_find;
use crate::addr::spec_parse_addr;
use crate::addr::find_from;
use crate::addr::parse_addr;

verus! {

/// Bytes the adapter trims around a plain-text address: ASCII whitespace.
pub open spec fn is_space(b: u8) -> bool {
    b == 32 || (9 <= b <= 13)
}

/// `s` with its longest prefix of bytes satisfying `p` removed.
pub open spec fn trim_front(s: Seq<u8>, p: spec_fn(u8) -> bool) -> Seq<u8>
    decreases s.len(),
{
    if s.len() > 0 && p(s[0]) {
        trim_front(s.drop_first(), p)
    } else {
        s
    }
}

/// `s` with its longest suffix of bytes satisfying `p` removed.
pub open spec fn trim_back(s: Seq<u8>, p: spec_fn(u8) -> bool) -> Seq<u8>
    decreases s.len(),
{
    if s.len() > 0 && p(s.last()) {
        trim_back(s.drop_last(), p)
    } else {
        s
    }
}

/// `s` with every leading and trailing byte satisfying `p` removed.
pub open spec fn spec_trim(s: Seq<u8>, p: spec_fn(u8) -> bool) -> Seq<u8> {
    trim_back(trim_front(s, p), p)
}

/// The whitespace predicate, as one shared term.
pub open spec fn space_pred() -> spec_fn(u8) -> bool {
    |b: u8| is_space(b)
}

/// The double-quote predicate, as one shared term.
pub open spec fn quote_pred() -> spec_fn(u8) -> bool {
    |b: u8| b == 34
}

/// Front trimming drops exactly the leading run of bytes satisfying `p`.
proof fn lemma_trim_front(s: Seq<u8>, p: spec_fn(u8) -> bool, a: int)
    requires
        0 <= a <= s.len(),
        forall|j: int| 0 <= j < a ==> p(#[trigger] s[j]),
        a < s.len() ==> !p(s[a]),
    ensures
        trim_front(s, p) == s.skip(a),
    decreases a,
{
    if a == 0 {
        assert(s.skip(0) =~= s);
    } else {
        let d = s.drop_first();
        lemma_trim_front(d, p, a - 1);
        assert(d.skip(a - 1) =~= s.skip(a));
    }
}

/// Back trimming drops exactly the trailing run of bytes satisfying `p`.
proof fn lemma_trim_back(s: Seq<u8>, p: spec_fn(u8) -> bool, b: int)
    requires
        0 <= b <= s.len(),
        forall|j: int| b <= j < s.len() ==> p(#[trigger] s[j]),
        b > 0 ==> !p(s[b - 1]),
    ensures
        trim_back(s, p) == s.take(b),
    decreases s.len() - b,
{
    if b == s.len() {
        assert(s.take(b) =~= s);
    } else {
        let d = s.drop_last();
        lemma_trim_back(d, p, b);
        assert(d.take(b) =~= s.take(b));
    }
}

/// Whether this byte is trimmed as whitespace.
fn is_space_byte(b: u8) -> (r: bool)
    ensures
        r == is_space(b),
{
    b == 32 || (9 <= b && b <= 13)
}

/// Trim ASCII whitespace from both ends of `s`.
fn trim_spaces(s: &[u8]) -> (r: Vec<u8>)
    ensures
        r@ == spec_trim(s@, space_pred()),
{
    let n = s.len();
    let mut a: usize = 0;
    while a < n && is_space_byte(s[a])
        invariant
            n == s@.len(),
            a <= n,
            forall|j: int| 0 <= j < a ==> space_pred()(#[trigger] s@[j]),
        decreases n - a,
    {
        a = a + 1;
    }
    let mut b: usize = n;
    while b > a && is_space_byte(s[b - 1])
        invariant
            n == s@.len(),
            a <= b <= n,
            forall|j: int| b <= j < n ==> space_pred()(#[trigger] s@[j]),
        decreases b,
    {
        b = b - 1;
    }
    proof {
        lemma_trim_front(s@, space_pred(), a as int);
        let t = s@.skip(a as int);
        if b == a && a < n {
            assert(space_pred()(s@[a as int]));
            assert(false);
        }
        lemma_trim_back(t, space_pred(), b - a);
        assert(t.take(b - a) =~= s@.subrange(a as int, b as int));
    }
    copy_range(s, a, b)
}

/// Trim double quotes from both ends of `s`.
fn trim_quotes(s: &[u8]) -> (r: Vec<u8>)
    ensures
        r@ == spec_trim(s@, quote_pred()),
{
    let n = s.len();
    let mut a: usize = 0;
    while a < n && s[a] == 34
        invariant
            n == s@.len(),
            a <= n,
            forall|j: int| 0 <= j < a ==> quote_pred()(#[trigger] s@[j]),
        decreases n - a,
    {
        a = a + 1;
    }
    let mut b: usize = n;
    while b > a && s[b - 1] == 34
        invariant
            n == s@.len(),
            a <= b <= n,
            forall|j: int| b <= j < n ==> quote_pred()(#[trigger] s@[j]),
        decreases b,
    {
        b = b - 1;
    }
    proof {
        lemma_trim_front(s@, quote_pred(), a as int);
        let t = s@.skip(a as int);
        if b == a && a < n {
            assert(quote_pred()(s@[a as int]));
            assert(false);
        }
        lemma_trim_back(t, quote_pred(), b - a);
        assert(t.take(b - a) =~= s@.subrange(a as int, b as int));
    }
    copy_range(s, a, b)
}

/// The bytes of the JSON key pattern `"ip":`.
pub open spec fn ip_field_pat() -> Seq<u8> {
    seq![34u8, 105u8, 112u8, 34u8, 58u8]
}

/// What extracting the JSON `ip` property yields: after the first occurrence
/// of `"ip":`, the text following the next double quote, up to the quote
/// that closes it (or to the end if none does). `None` when the key or its
/// opening quote is missing. The JSON is not validated.
pub open spec fn spec_extract_json_ip_field(s: Seq<u8>) -> Option<Seq<u8>> {
    match spec_find(s, ip_field_pat()) {
        None => None,
        Some(i) => {
            let t = s.skip(i + 5);
            match spec_find(t, seq![34u8]) {
                None => None,
                Some(q1) => {
                    let u = t.skip(q1 + 1);
                    match spec_find(u, seq![34u8]) {
                        None => Some(u),
                        Some(q2) => Some(u.take(q2)),
                    }
                },
            }
        },
    }
}

/// HTTP resolver error.
#[derive(Debug)]
pub enum Error {
    /// Transport error while reading the response.
    Hyper(String),
    /// Client error while issuing the request.
    Client(String),
    /// The configured URI could not be parsed.
    Uri(String),
    /// Failure to load certificates.
    NoCerts(String),
}

impl Clone for Error {
    fn clone(&self) -> (r: Self)
        ensures
            r == *self,
    {
        match self {
            Error::Hyper(m) => Error::Hyper(m.clone()),
            Error::Client(m) => Error::Client(m.clone()),
            Error::Uri(m) => Error::Uri(m.clone()),
            Error::NoCerts(m) => Error::NoCerts(m.clone()),
        }
    }
}

/// Method used to extract an IP address from an HTTP response.
#[derive(Debug, Clone, Copy, PartialEq, Eq, Structural)]
pub enum ExtractMethod {
    /// Parses the body with whitespace trimmed as the IP address.
    PlainText,
    /// Parses the body with double quotes and whitespace trimmed as the IP
    /// address.
    StripDoubleQuotes,
    /// Parses the value of the JSON property `"ip"` within the body as the IP
    /// address.
    ///
    /// Note this method does not validate the JSON.
    ExtractJsonIpField,
}

/// Extract the value of the JSON property `"ip"` within `s`: the text
/// between the quotes that follow the first `"ip":` key. The JSON is not
/// validated; [`Error::Addr`] when no such property is found.
pub fn extract_json_ip_field(s: &[u8]) -> (r: Result<Vec<u8>, crate::Error>)
    ensures
        match r {
            Ok(v) => spec_extract_json_ip_field(s@) == Some(v@),
            Err(e) => spec_extract_json_ip_field(s@) is None && e == crate::Error::Addr,
        },
{
    let n = s.len();
    let mut pat: Vec<u8> = Vec::new();
    pat.push(34);
    pat.push(105);
    pat.push(112);
    pat.push(34);
    pat.push(58);
    let mut quote: Vec<u8> = Vec::new();
    quote.push(34);
    proof {
        assert(pat@ =~= ip_field_pat());
        assert(quote@ =~= seq![34u8]);
        assert(s@.skip(0) =~= s@);
    }
    let i = match find_from(s, pat.as_slice(), 0) {
        Some(i) => i,
        None => {
            return Err(crate::Error::Addr);
        },
    };
    let ghost t = s@.skip(i + 5);
    let q1 = match find_from(s, quote.as_slice(), i + 5) {
        Some(q1) => q1,
        None => {
            return Err(crate::Error::Addr);
        },
    };
    proof {
        assert(t.skip(q1 - (i + 5) + 1) =~= s@.skip(q1 + 1));
    }
    let ghost u = t.skip(q1 - (i + 5) + 1);
    match find_from(s, quote.as_slice(), q1 + 1) {
        Some(q2) => {
            proof {
                assert(u.take(q2 - (q1 + 1)) =~= s@.subrange(q1 + 1, q2 as int));
            }
            Ok(copy_range(s, q1 + 1, q2))
        },
        None => {
            proof {
                assert(u =~= s@.subrange(q1 + 1, n as int));
            }
            Ok(copy_range(s, q1 + 1, n))
        },
    }
}

/// The address a response body yields under an extract method: the trimmed
/// body, the trimmed body stripped of double quotes, or the JSON `ip`
/// property, parsed as IP address text. `None` when extraction or the parse
/// fails.
pub open spec fn spec_extract_address(body: Seq<u8>, method: ExtractMethod) -> Option<Addr> {
    match method {
        ExtractMethod::PlainText => spec_parse_addr(spec_trim(body, space_pred())),
        ExtractMethod::StripDoubleQuotes => spec_parse_addr(
            spec_trim(spec_trim(body, space_pred()), quote_pred()),
        ),
        ExtractMethod::ExtractJsonIpField => match spec_extract_json_ip_field(body) {
            Some(v) => spec_parse_addr(v),
            None => None,
        },
    }
}

/// Extract an IP address from a response body with the given method;
/// [`Error::Addr`] exactly when the body holds no address under it.
pub fn extract_address(body: &[u8], method: ExtractMethod) -> (r: Result<Addr, crate::Error>)
    ensures
        match spec_extract_address(body@, method) {
            Some(a) => r == Ok::<Addr, crate::Error>(a),
            None => r == Err::<Addr, crate::Error>(crate::Error::Addr),
        },
{
    let text: Vec<u8> = match method {
        ExtractMethod::PlainText => trim_spaces(body),
        ExtractMethod::StripDoubleQuotes => {
            let t = trim_spaces(body);
            trim_quotes(t.as_slice())
        },
        ExtractMethod::ExtractJsonIpField => {
            match extract_json_ip_field(body) {
                Ok(v) => v,
                Err(e) => {
                    return Err(e);
                },
            }
        },
    };
    match parse_addr(text.as_slice()) {
        Some(a) => Ok(a),
        None => Err(crate::Error::Addr),
    }
}

/// Details produced from an HTTP resolution.
#[derive(Debug)]
pub struct Details {
    uri: String,
    server: SocketAddr,
    method: ExtractMethod,
}

impl Details {
    /// The queried URI, as the resolver was configured with.
    pub closed spec fn spec_uri(&self) -> String {
        self.uri
    }

    /// The server the response came from.
    pub closed spec fn spec_server(&self) -> SocketAddr {
        self.server
    }

    /// The extract method used.
    pub closed spec fn spec_method(&self) -> ExtractMethod {
        self.method
    }

    /// Assemble the evidence of one successful HTTP resolution.
    pub fn new(uri: String, server: SocketAddr, method: ExtractMethod) -> (r: Self)
        ensures
            r.spec_uri() == uri,
            r.spec_server() == server,
            r.spec_method() == method,
    {
        Details { uri, server, method }
    }

    /// URI used in the resolution of the associated IP address.
    pub fn uri(&self) -> (r: &String)
        ensures
            *r == self.spec_uri(),
    {
        &self.uri
    }

    /// HTTP server used in the resolution of our IP address.
    pub fn server(&self) -> (r: SocketAddr)
        ensures
            r == self.spec_server(),
    {
        self.server
    }

    /// The extract method used in the resolution of the associated IP address.
    pub fn extract_method(&self) -> (r: ExtractMethod)
        ensures
            r == self.spec_method(),
    {
        self.method
    }
}

impl Clone for Details {
    fn clone(&self) -> (r: Self)
        ensures
            r == *self,
    {
        Details { uri: self.uri.clone(), server: self.server, method: self.method }
    }
}

/// Names whether the `http` crate's URI parser accepts this text; the parse
/// depends on the text alone.
pub uninterp spec fn http_uri_accepted(s: Seq<char>) -> bool;

/// Relies on the `http` crate's `Uri` parser (`TryFrom<&str> for Uri`):
/// whether the URI text parses, a pure function of the text.
#[verifier::external_body]
fn check_uri(uri: &str) -> (r: bool)
    ensures
        r == http_uri_accepted(uri@),
{
    ::http::Uri::try_from(uri).is_ok()
}

/// Options to build an HTTP resolver.
#[derive(Debug)]
pub struct Resolver {
    uri: String,
    method: ExtractMethod,
}

impl Resolver {
    /// The URI this resolver queries.
    pub closed spec fn spec_uri(&self) -> String {
        self.uri
    }

    /// The extract method this resolver applies to the response body.
    pub closed spec fn spec_method(&self) -> ExtractMethod {
        self.method
    }

    /// Create new HTTP resolver options.
    pub fn new(uri: String, method: ExtractMethod) -> (r: Self)
        ensures
            r.spec_uri() == uri,
            r.spec_method() == method,
    {
        Resolver { uri, method }
    }

    /// Create new HTTP resolver options from borrowed text.
    pub fn new_static(uri: &str, method: ExtractMethod) -> (r: Self)
        ensures
            r.spec_uri()@ == uri@,
            r.spec_method() == method,
    {
        Resolver { uri: uri.to_owned(), method }
    }

    /// What this resolver decides before any I/O: the URI to request, or the
    /// one typed error its whole stream will consist of when the configured
    /// URI does not parse.
    pub fn plan(&self) -> (r: Result<String, crate::Error>)
        ensures
            http_uri_accepted(self.spec_uri()@) ==> r == Ok::<String, crate::Error>(
                self.spec_uri(),
            ),
            !http_uri_accepted(self.spec_uri()@) ==> r == Err::<String, crate::Error>(
                crate::Error::Http(Error::Uri(self.spec_uri())),
            ),
    {
        if check_uri(self.uri.as_str()) {
            Ok(self.uri.clone())
        } else {
            Err(crate::Error::Http(Error::Uri(self.uri.clone())))
        }
    }

    /// Turn one response body into this resolver's stream item: the
    /// extracted address with its evidence, or the typed error for a body
    /// that holds no address of the configured shape.
    pub fn resolution_from_body(&self, server: SocketAddr, body: &[u8]) -> (r: Result<
        (Addr, crate::Details),
        crate::Error,
    >)
        ensures
            match spec_extract_address(body@, self.spec_method()) {
                Some(a) => r is Ok && r->Ok_0.0 == a && r->Ok_0.1 is Http
                    && r->Ok_0.1->Http_0.spec_uri() == self.spec_uri()
                    && r->Ok_0.1->Http_0.spec_server() == server
                    && r->Ok_0.1->Http_0.spec_method() == self.spec_method(),
                None => r == Err::<(Addr, crate::Details), crate::Error>(crate::Error::Addr),
            },
    {
        match extract_address(body, self.method) {
            Ok(a) => {
                let details = Details::new(self.uri.clone(), server, self.method);
                Ok((a, crate::Details::Http(details)))
            },
            Err(e) => Err(e),
        }
    }
}

} // verus!
