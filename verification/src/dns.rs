//! DNS resolver support: configuration, the verified compute half of the
//! adapter (endpoint filtering, response interpretation), and the evidence
//! attached to a successful resolution.

use vstd::prelude::*;

use crate::addr::Addr;
use crate::addr::SocketAddr;

verus! {

/// DNS resolver error: carries the message of a failure reported by the DNS
/// transport or protocol layer.
#[derive(Debug)]
pub struct Error {
    /// What went wrong, as reported by the DNS layer.
    pub message: String,
}

impl Error {
    /// Construct a DNS error from its message.
    pub fn new(message: String) -> (r: Self)
        ensures
            r == (Error { message }),
    {
        Error { message }
    }
}

impl Clone for Error {
    fn clone(&self) -> (r: Self)
        ensures
            r == *self,
    {
        Error { message: self.message.clone() }
    }
}

/// Method used to query an IP address from a DNS server.
#[derive(Debug, Clone, Copy, PartialEq, Eq, Structural)]
pub enum QueryMethod {
    /// The first queried `A` record is extracted as our IP address.
    A,
    /// The first queried `AAAA` record is extracted as our IP address.
    AAAA,
    /// The first `TXT` record is extracted and parsed as our IP address.
    TXT,
}

/// The DNS class a query is made in.
#[derive(Debug, Clone, Copy, PartialEq, Eq, Structural)]
pub enum DnsClass {
    /// Internet.
    In,
    /// Chaos.
    Ch,
    /// Hesiod.
    Hs,
    /// Any class.
    Any,
}

/// Details produced from a DNS resolution.
#[derive(Debug)]
pub struct Details {
    name: String,
    server: SocketAddr,
    method: QueryMethod,
}

impl Details {
    /// The queried name, as the resolver was configured with.
    pub closed spec fn spec_name(&self) -> String {
        self.name
    }

    /// The server the answer came from.
    pub closed spec fn spec_server(&self) -> SocketAddr {
        self.server
    }

    /// The query method used.
    pub closed spec fn spec_method(&self) -> QueryMethod {
        self.method
    }

    /// Assemble the evidence of one successful DNS resolution.
    pub fn new(name: String, server: SocketAddr, method: QueryMethod) -> (r: Self)
        ensures
            r.spec_name() == name,
            r.spec_server() == server,
            r.spec_method() == method,
    {
        Details { name, server, method }
    }

    /// DNS name used in the resolution of our IP address.
    pub fn name(&self) -> (r: &String)
        ensures
            *r == self.spec_name(),
    {
        &self.name
    }

    /// DNS server used in the resolution of our IP address.
    pub fn server(&self) -> (r: SocketAddr)
        ensures
            r == self.spec_server(),
    {
        self.server
    }

    /// The query method used in the resolution of our IP address.
    pub fn query_method(&self) -> (r: QueryMethod)
        ensures
            r == self.spec_method(),
    {
        self.method
    }
}

impl Clone for Details {
    fn clone(&self) -> (r: Self)
        ensures
            r == *self,
    {
        Details { name: self.name.clone(), server: self.server, method: self.method }
    }
}

/// One answer record of a DNS response, as the engine reads it: the address
/// carried by an `A` or `AAAA` record, the character strings of a `TXT`
/// record, or some other record type.
#[derive(Debug)]
pub enum RecordData {
    /// An `A` record: the four octets of an IPv4 address.
    A(u8, u8, u8, u8),
    /// An `AAAA` record: the eight groups of an IPv6 address.
    Aaaa(u16, u16, u16, u16, u16, u16, u16, u16),
    /// A `TXT` record: its character strings, each a run of bytes.
    Txt(Vec<Vec<u8>>),
    /// Any other record data.
    Other,
}

/// How interpreting a response can fail: no usable address text or record
/// (reported as [`crate::Error::Addr`]), or an answer whose record type does
/// not fit the query method (reported as a DNS error).
pub enum ResponseError {
    /// The response carries no address: no answer at all, an empty `TXT`
    /// record, or address text that does not parse.
    NoAddress,
    /// The first answer's record type does not match the query method.
    InvalidResponse,
}

/// What the first answer of a response yields under a query method: the
/// address of an `A` record for [`QueryMethod::A`], of an `AAAA` record for
/// [`QueryMethod::AAAA`], or the parsed first character string of a `TXT`
/// record for [`QueryMethod::TXT`]; otherwise how it fails.
pub open spec fn spec_response_outcome(answers: Seq<RecordData>, method: QueryMethod) -> Result<
    Addr,
    ResponseError,
> {
    if answers.len() == 0 {
        Err(ResponseError::NoAddress)
    } else {
        match (answers[0], method) {
            (RecordData::A(o0, o1, o2, o3), QueryMethod::A) => Ok(Addr::V4(o0, o1, o2, o3)),
            (RecordData::Aaaa(g0, g1, g2, g3, g4, g5, g6, g7), QueryMethod::AAAA) => Ok(
                Addr::V6(g0, g1, g2, g3, g4, g5, g6, g7),
            ),
            (RecordData::Txt(segments), QueryMethod::TXT) => if segments@.len() == 0 {
                Err(ResponseError::NoAddress)
            } else {
                match crate::addr::spec_parse_addr(segments@[0]@) {
                    Some(a) => Ok(a),
                    None => Err(ResponseError::NoAddress),
                }
            },
            _ => Err(ResponseError::InvalidResponse),
        }
    }
}

/// Interpret the answers of a DNS response under the query method that was
/// asked: the extracted address, [`crate::Error::Addr`] where no address can
/// be read, or a DNS error where the record type does not fit the method.
pub fn parse_dns_response(answers: &Vec<RecordData>, method: QueryMethod) -> (r: Result<
    Addr,
    crate::Error,
>)
    ensures
        match spec_response_outcome(answers@, method) {
            Ok(a) => r == Ok::<Addr, crate::Error>(a),
            Err(ResponseError::NoAddress) => r == Err::<Addr, crate::Error>(crate::Error::Addr),
            Err(ResponseError::InvalidResponse) => r is Err && r->Err_0 is Dns
                && r->Err_0->Dns_0.message@ == "invalid response"@,
        },
{
    if answers.len() == 0 {
        return Err(crate::Error::Addr);
    }
    match (&answers[0], method) {
        (RecordData::A(o0, o1, o2, o3), QueryMethod::A) => Ok(Addr::V4(*o0, *o1, *o2, *o3)),
        (RecordData::Aaaa(g0, g1, g2, g3, g4, g5, g6, g7), QueryMethod::AAAA) => Ok(
            Addr::V6(*g0, *g1, *g2, *g3, *g4, *g5, *g6, *g7),
        ),
        (RecordData::Txt(segments), QueryMethod::TXT) => {
            if segments.len() == 0 {
                return Err(crate::Error::Addr);
            }
            match crate::addr::parse_addr(segments[0].as_slice()) {
                Some(a) => Ok(a),
                None => Err(crate::Error::Addr),
            }
        },
        _ => Err(crate::Error::Dns(Error { message: "invalid response".to_owned() })),
    }
}

/// One DNS query the adapter will issue: everything the transport needs.
#[derive(Debug)]
pub struct Query {
    /// The name to look up.
    pub name: String,
    /// The server to ask.
    pub server: SocketAddr,
    /// The query method, fixing the record type asked for.
    pub method: QueryMethod,
    /// The class the query is made in.
    pub class: DnsClass,
}

/// Options to build a DNS resolver.
#[derive(Debug)]
pub struct Resolver {
    name: String,
    servers: Vec<Addr>,
    port: u16,
    method: QueryMethod,
    class: DnsClass,
}

/// The configured servers whose address family satisfies the requested
/// version, in configuration order.
pub open spec fn matching_servers(servers: Seq<Addr>, version: crate::Version) -> Seq<Addr>
    decreases servers.len(),
{
    if servers.len() == 0 {
        Seq::empty()
    } else {
        matching_servers(servers.drop_last(), version) + (if version.spec_matches(servers.last()) {
            seq![servers.last()]
        } else {
            Seq::empty()
        })
    }
}

/// Endpoint filtering law: every server kept matches the requested version —
/// the adapter never contacts a server whose address family cannot satisfy
/// the request.
pub proof fn lemma_matching_servers_match(servers: Seq<Addr>, version: crate::Version)
    ensures
        forall|i: int|
            0 <= i < matching_servers(servers, version).len() ==> version.spec_matches(
                #[trigger] matching_servers(servers, version)[i],
            ),
    decreases servers.len(),
{
    if servers.len() > 0 {
        lemma_matching_servers_match(servers.drop_last(), version);
        let m = matching_servers(servers, version);
        let md = matching_servers(servers.drop_last(), version);
        assert forall|i: int| 0 <= i < m.len() implies version.spec_matches(m[i]) by {
            if i < md.len() {
                assert(m[i] == md[i]);
            } else {
                assert(m[i] == servers.last());
            }
        }
    }
}

/// Names whether hickory-proto's DNS name parser accepts this text; the
/// parse depends on the text alone.
pub uninterp spec fn dns_name_accepted(s: Seq<char>) -> bool;

/// Relies on hickory-proto's `Name::from_ascii`: whether the configured name
/// parses as a DNS name, a pure function of the text.
#[verifier::external_body]
fn check_dns_name(name: &str) -> (r: bool)
    ensures
        r == dns_name_accepted(name@),
{
    hickory_proto::rr::Name::from_ascii(name).is_ok()
}

impl Resolver {
    /// The name this resolver looks up.
    pub closed spec fn spec_name(&self) -> String {
        self.name
    }

    /// The configured servers, in priority order.
    pub closed spec fn spec_servers(&self) -> Seq<Addr> {
        self.servers@
    }

    /// The configured server port.
    pub closed spec fn spec_port(&self) -> u16 {
        self.port
    }

    /// The configured query method.
    pub closed spec fn spec_method(&self) -> QueryMethod {
        self.method
    }

    /// The configured query class.
    pub closed spec fn spec_class(&self) -> DnsClass {
        self.class
    }

    /// Create a new DNS resolver.
    pub fn new(name: String, servers: Vec<Addr>, port: u16, method: QueryMethod, class: DnsClass) -> (r:
        Self)
        ensures
            r.spec_name() == name,
            r.spec_servers() == servers@,
            r.spec_port() == port,
            r.spec_method() == method,
            r.spec_class() == class,
    {
        Resolver { name, servers, port, method, class }
    }

    /// Create a new DNS resolver from borrowed options.
    pub fn new_static(
        name: &str,
        servers: &[Addr],
        port: u16,
        method: QueryMethod,
        class: DnsClass,
    ) -> (r: Self)
        ensures
            r.spec_name()@ == name@,
            r.spec_servers() == servers@,
            r.spec_port() == port,
            r.spec_method() == method,
            r.spec_class() == class,
    {
        let mut owned: Vec<Addr> = Vec::new();
        let mut i: usize = 0;
        while i < servers.len()
            invariant
                i <= servers@.len(),
                owned@ == servers@.take(i as int),
            decreases servers@.len() - i,
        {
            owned.push(servers[i]);
            i = i + 1;
            proof {
                assert(owned@ =~= servers@.take(i as int));
            }
        }
        proof {
            assert(servers@.take(servers@.len() as int) =~= servers@);
        }
        Resolver { name: name.to_owned(), servers: owned, port, method, class }
    }

    /// What this resolver decides before any I/O: the ordered queries one
    /// resolution attempt will issue — one per configured server whose
    /// family matches the requested version — or the one typed error its
    /// whole stream will consist of when the configured name does not parse.
    /// No matching server gives an empty plan: an immediately-exhausted
    /// stream, not an error.
    pub fn plan(&self, version: crate::Version) -> (r: Result<Vec<Query>, crate::Error>)
        ensures
            dns_name_accepted(self.spec_name()@) ==> r is Ok && r->Ok_0@ == matching_servers(
                self.spec_servers(),
                version,
            ).map_values(
                |ip: Addr|
                    (Query {
                        name: self.spec_name(),
                        server: SocketAddr { ip, port: self.spec_port() },
                        method: self.spec_method(),
                        class: self.spec_class(),
                    }),
            ),
            !dns_name_accepted(self.spec_name()@) ==> r is Err && r->Err_0 is Dns
                && r->Err_0->Dns_0.message@ == "invalid dns name"@,
    {
        if !check_dns_name(self.name.as_str()) {
            return Err(crate::Error::Dns(Error { message: "invalid dns name".to_owned() }));
        }
        let ghost goal = matching_servers(self.spec_servers(), version).map_values(
            |ip: Addr|
                (Query {
                    name: self.spec_name(),
                    server: SocketAddr { ip, port: self.spec_port() },
                    method: self.spec_method(),
                    class: self.spec_class(),
                }),
        );
        let mut queries: Vec<Query> = Vec::new();
        let mut i: usize = 0;
        proof {
            assert(self.spec_servers().take(0) =~= Seq::<Addr>::empty());
        }
        while i < self.servers.len()
            invariant
                i <= self.spec_servers().len(),
                queries@ == matching_servers(self.spec_servers().take(i as int), version)
                    .map_values(
                    |ip: Addr|
                        (Query {
                            name: self.spec_name(),
                            server: SocketAddr { ip, port: self.spec_port() },
                            method: self.spec_method(),
                            class: self.spec_class(),
                        }),
                ),
            decreases self.spec_servers().len() - i,
        {
            let ip = self.servers[i];
            if version.matches(ip) {
                queries.push(
                    Query {
                        name: self.name.clone(),
                        server: SocketAddr { ip, port: self.port },
                        method: self.method,
                        class: self.class,
                    },
                );
            }
            i = i + 1;
            proof {
                assert(self.spec_servers().take(i as int).drop_last() =~= self.spec_servers().take(
                    i - 1,
                ));
                assert(self.spec_servers().take(i as int).last() == self.spec_servers()[i - 1]);
                assert(queries@ =~= matching_servers(self.spec_servers().take(i as int), version)
                    .map_values(
                    |ip: Addr|
                        (Query {
                            name: self.spec_name(),
                            server: SocketAddr { ip, port: self.spec_port() },
                            method: self.spec_method(),
                            class: self.spec_class(),
                        }),
                ));
            }
        }
        proof {
            assert(self.spec_servers().take(self.spec_servers().len() as int)
                =~= self.spec_servers());
        }
        Ok(queries)
    }

    /// Turn the answers of one query of the plan into this resolver's stream
    /// item: the extracted address with its evidence, or the typed error for
    /// a response that yields none.
    pub fn resolution_from_response(
        &self,
        server: SocketAddr,
        answers: &Vec<RecordData>,
    ) -> (r: Result<(Addr, crate::Details), crate::Error>)
        ensures
            match spec_response_outcome(answers@, self.spec_method()) {
                Ok(a) => r is Ok && r->Ok_0.0 == a && r->Ok_0.1 is Dns
                    && r->Ok_0.1->Dns_0.spec_name() == self.spec_name()
                    && r->Ok_0.1->Dns_0.spec_server() == server
                    && r->Ok_0.1->Dns_0.spec_method() == self.spec_method(),
                Err(ResponseError::NoAddress) => r == Err::<(Addr, crate::Details), crate::Error>(
                    crate::Error::Addr,
                ),
                Err(ResponseError::InvalidResponse) => r is Err && r->Err_0 is Dns
                    && r->Err_0->Dns_0.message@ == "invalid response"@,
            },
    {
        match parse_dns_response(answers, self.method) {
            Ok(a) => {
                let details = Details::new(self.name.clone(), server, self.method);
                Ok((a, crate::Details::Dns(details)))
            },
            Err(e) => Err(e),
        }
    }
}

} // verus!
