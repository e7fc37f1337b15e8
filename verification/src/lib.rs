//! Discovering the caller's own public IP address.
//!
//! A [`Resolver`] turns a requested IP [`Version`] into an ordered sequence
//! of resolution attempts; composite resolvers drain each member in priority
//! order before moving to the next (fallback). The pipeline entry points
//! re-check every successful address against the requested version and offer
//! best-effort consumption that skips over errors.

use vstd::prelude::*;

pub mod addr;
/// DNS resolver support.
pub mod dns;
mod error;
/// HTTP resolver support.
pub mod http;
/// Resolver composition.
pub mod resolver;

pub use crate::addr::Addr;
pub use crate::addr::SocketAddr;
pub use crate::error::Error;

verus! {

/// The details of a resolution: opaque, strategy-tagged evidence of how an
/// address was obtained. The engine never interprets it; a consumer recovers
/// the strategy-specific fields by matching on the variant.
#[derive(Debug)]
pub enum Details {
    /// Evidence produced by a DNS resolution.
    Dns(crate::dns::Details),
    /// Evidence produced by an HTTP resolution.
    Http(crate::http::Details),
}

impl Clone for Details {
    fn clone(&self) -> (r: Self)
        ensures
            r == *self,
    {
        match self {
            Details::Dns(d) => Details::Dns(d.clone()),
            Details::Http(d) => Details::Http(d.clone()),
        }
    }
}

/// The version of IP address to resolve.
#[derive(Debug, Copy, Clone, PartialEq, Eq, Hash, Structural)]
#[non_exhaustive]
pub enum Version {
    /// IPv4.
    V4,
    /// IPv6.
    V6,
    /// Any version of IP address.
    Any,
}

impl Version {
    /// What [`Version::matches`] returns: `Any` accepts every address, `V4`
    /// and `V6` accept exactly the addresses of their family.
    pub open spec fn spec_matches(self, addr: Addr) -> bool {
        self == Version::Any || (self == Version::V4 && addr.spec_is_v4()) || (self
            == Version::V6 && addr.spec_is_v6())
    }

    /// Returns `true` if the provided IP address's version matches `self`.
    pub fn matches(self, addr: Addr) -> (r: bool)
        ensures
            r == self.spec_matches(addr),
    {
        match self {
            Version::Any => true,
            Version::V4 => addr.is_ipv4(),
            Version::V6 => addr.is_ipv6(),
        }
    }
}

/// Totality and partition of version matching: `V4` matches exactly the IPv4
/// addresses, `V6` exactly the IPv6 addresses, `Any` matches every address,
/// and every address is of exactly one family.
pub proof fn lemma_version_matches_partition(addr: Addr)
    ensures
        Version::V4.spec_matches(addr) <==> addr.spec_is_v4(),
        Version::V6.spec_matches(addr) <==> addr.spec_is_v6(),
        Version::Any.spec_matches(addr),
        addr.spec_is_v4() <==> !addr.spec_is_v6(),
{
}

/// One item of a resolution stream: an address with its evidence, or a typed
/// error. Errors flow through the stream like successes; they are never
/// raised out of band.
pub type ResolutionResult = Result<(Addr, Details), Error>;

/// Duplicate one stream item, preserving its value exactly.
pub(crate) fn clone_resolution(item: &ResolutionResult) -> (r: ResolutionResult)
    ensures
        r == *item,
{
    match item {
        Ok((a, d)) => Ok((*a, d.clone())),
        Err(e) => Err(e.clone()),
    }
}

/// A stream of resolution results, pulled one item at a time with
/// [`Resolutions::next`]. Its view is the sequence of items still to come;
/// once `next` returns `None` the stream is exhausted for good.
pub struct Resolutions {
    items: Vec<ResolutionResult>,
    pos: usize,
}

impl View for Resolutions {
    type V = Seq<ResolutionResult>;

    closed spec fn view(&self) -> Seq<ResolutionResult> {
        self.items@.skip(self.pos as int)
    }
}

impl Resolutions {
    /// The stream's cursor never points past its backing items.
    pub closed spec fn wf(&self) -> bool {
        self.pos <= self.items.len()
    }

    /// An immediately-exhausted stream.
    pub fn empty() -> (r: Self)
        ensures
            r.wf(),
            r@ == Seq::<ResolutionResult>::empty(),
    {
        let r = Resolutions { items: Vec::new(), pos: 0 };
        proof {
            assert(r@ =~= Seq::<ResolutionResult>::empty());
        }
        r
    }

    /// A stream that will yield exactly `items`, in order.
    pub fn from_vec(items: Vec<ResolutionResult>) -> (r: Self)
        ensures
            r.wf(),
            r@ == items@,
    {
        let r = Resolutions { items, pos: 0 };
        proof {
            assert(r@ =~= r.items@);
        }
        r
    }

    /// Pull the next item. `None` means end of sequence, not a momentary gap:
    /// the stream never yields again after it.
    pub fn next(&mut self) -> (item: Option<ResolutionResult>)
        requires
            old(self).wf(),
        ensures
            final(self).wf(),
            old(self)@.len() == 0 ==> item is None && final(self)@ == old(self)@,
            old(self)@.len() > 0 ==> item == Some(old(self)@[0]) && final(self)@ == old(self)@.drop_first(),
    {
        if self.pos < self.items.len() {
            let it = clone_resolution(&self.items[self.pos]);
            self.pos = self.pos + 1;
            proof {
                assert(self@ =~= old(self)@.drop_first());
            }
            Some(it)
        } else {
            None
        }
    }
}

/// Trait implemented by IP address resolvers: a single strategy or an
/// ordered composite of strategies. A resolver is stateless configuration;
/// each call of [`Resolver::resolve`] produces a fresh stream.
pub trait Resolver {
    /// The exact sequence of results one resolution attempt yields for the
    /// requested version.
    spec fn outcomes(&self, version: Version) -> Seq<ResolutionResult>;

    /// Resolves a stream of IP addresses with a given [`Version`].
    fn resolve(&self, version: Version) -> (r: Resolutions)
        ensures
            r.wf(),
            r@ == self.outcomes(version);
}

/// The concatenation, in resolver order, of every resolver's outcomes: what
/// draining each `resolvers[i].resolve(version)` fully, first to last, would
/// yield.
pub open spec fn concat_outcomes<R: Resolver>(resolvers: Seq<R>, version: Version) -> Seq<
    ResolutionResult,
>
    decreases resolvers.len(),
{
    if resolvers.len() == 0 {
        Seq::empty()
    } else {
        resolvers[0].outcomes(version) + concat_outcomes(resolvers.drop_first(), version)
    }
}

/// The fallback stream combinator: drives an ordered slice of resolvers as
/// one merged lazy stream. The current resolver's stream is pulled until it
/// is exhausted; only then is the next resolver started, within the same
/// pull, so a caller never sees a spurious end while another resolver
/// remains. No resolver is ever started twice.
pub struct FallbackStream<'a, R> {
    version: Version,
    resolvers: &'a [R],
    started: usize,
    current: Resolutions,
}

impl<'a, R: Resolver> View for FallbackStream<'a, R> {
    type V = Seq<ResolutionResult>;

    /// The items this merged stream will still yield: what is left of the
    /// current resolver's stream, then everything of the resolvers not yet
    /// started.
    closed spec fn view(&self) -> Seq<ResolutionResult> {
        self.current@ + concat_outcomes(self.resolvers@.skip(self.started as int), self.version)
    }
}

impl<'a, R: Resolver> FallbackStream<'a, R> {
    /// Internal consistency of the combinator state.
    pub closed spec fn wf(&self) -> bool {
        self.current.wf() && self.started <= self.resolvers@.len()
    }

    /// Start the combinator: the first resolver's stream becomes current (an
    /// empty collection gives an immediately-exhausted stream, not an error).
    pub fn new(resolvers: &'a [R], version: Version) -> (s: Self)
        ensures
            s.wf(),
            s@ == concat_outcomes(resolvers@, version),
    {
        if resolvers.len() > 0 {
            let current = resolvers[0].resolve(version);
            let s = FallbackStream { version, resolvers, started: 1, current };
            proof {
                assert(s.resolvers@.skip(1) =~= s.resolvers@.drop_first());
            }
            s
        } else {
            let s = FallbackStream { version, resolvers, started: 0, current: Resolutions::empty() };
            proof {
                assert(s.resolvers@.skip(0) =~= s.resolvers@);
                assert(s@ =~= concat_outcomes(resolvers@, version));
            }
            s
        }
    }

    /// Pull the next merged item. Yields every item of the current stream
    /// before starting the next resolver; `None` only once every resolver is
    /// exhausted.
    pub fn next(&mut self) -> (item: Option<ResolutionResult>)
        requires
            old(self).wf(),
        ensures
            final(self).wf(),
            old(self)@.len() == 0 ==> item is None && final(self)@ == old(self)@,
            old(self)@.len() > 0 ==> item == Some(old(self)@[0]) && final(self)@ == old(self)@.drop_first(),
    {
        loop
            invariant
                self.wf(),
                self@ == old(self)@,
            decreases self.resolvers@.len() - self.started,
        {
            let ghost pre = *self;
            match self.current.next() {
                Some(it) => {
                    proof {
                        assert(pre.current@.len() > 0);
                        assert(self@ =~= pre@.drop_first());
                        assert(pre@[0] == pre.current@[0]);
                    }
                    return Some(it);
                },
                None => {
                    if self.started < self.resolvers.len() {
                        let i = self.started;
                        self.current = self.resolvers[i].resolve(self.version);
                        self.started = i + 1;
                        proof {
                            let tail = pre.resolvers@.skip(i as int);
                            assert(tail[0] == pre.resolvers@[i as int]);
                            assert(tail.drop_first() =~= pre.resolvers@.skip(i as int + 1));
                            assert(self@ =~= pre@);
                        }
                    } else {
                        proof {
                            assert(self.resolvers@.skip(self.started as int).len() == 0);
                            assert(self@.len() == 0);
                        }
                        return None;
                    }
                },
            }
        }
    }
}

/// Drain a fallback stream over `resolvers` to completion, collecting the
/// merged sequence.
pub(crate) fn drain_fallback<R: Resolver>(resolvers: &[R], version: Version) -> (r: Resolutions)
    ensures
        r.wf(),
        r@ == concat_outcomes(resolvers@, version),
{
    let mut fs = FallbackStream::new(resolvers, version);
    let mut items: Vec<ResolutionResult> = Vec::new();
    loop
        invariant
            fs.wf(),
            items@ + fs@ == concat_outcomes(resolvers@, version),
        decreases fs@.len(),
    {
        let ghost pre = fs@;
        match fs.next() {
            Some(it) => {
                items.push(it);
                proof {
                    assert(items@ + fs@ =~= items@.drop_last() + pre);
                }
            },
            None => {
                proof {
                    assert(items@ =~= items@ + fs@);
                }
                return Resolutions::from_vec(items);
            },
        }
    }
}

/// What the pipeline does to one item: a successful address whose family was
/// not requested becomes [`Error::Version`] in place (it is recorded, never
/// silently dropped); every other item passes through unchanged.
pub open spec fn filter_item(version: Version, item: ResolutionResult) -> ResolutionResult {
    match item {
        Ok(p) => if version.spec_matches(p.0) {
            Ok(p)
        } else {
            Err(Error::Version)
        },
        Err(e) => Err(e),
    }
}

/// A whole stream after version post-filtering, item by item.
pub open spec fn filtered(s: Seq<ResolutionResult>, version: Version) -> Seq<ResolutionResult> {
    s.map_values(|item: ResolutionResult| filter_item(version, item))
}

/// Apply the version post-filter to one item.
fn filter_resolution(version: Version, item: ResolutionResult) -> (r: ResolutionResult)
    ensures
        r == filter_item(version, item),
{
    match item {
        Ok((a, d)) => if version.matches(a) {
            Ok((a, d))
        } else {
            Err(Error::Version)
        },
        Err(e) => Err(e),
    }
}

/// Given a [`Resolver`] and requested [`Version`], produces the full,
/// order-preserving, version-validated stream.
///
/// This function also protects against a resolver returning an IP address
/// with a version that was not requested: such an item is converted to
/// [`Error::Version`] in place, so consumers of the full stream still see a
/// recorded failure.
pub fn resolve<R: Resolver>(resolver: R, version: Version) -> (r: Resolutions)
    ensures
        r.wf(),
        r@ == filtered(resolver.outcomes(version), version),
{
    let ghost all = resolver.outcomes(version);
    let mut source = resolver.resolve(version);
    let mut out: Vec<ResolutionResult> = Vec::new();
    loop
        invariant
            source.wf(),
            all == resolver.outcomes(version),
            out@.len() <= all.len(),
            out@ == filtered(all.take(out@.len() as int), version),
            source@ == all.skip(out@.len() as int),
        decreases source@.len(),
    {
        let ghost k = out@.len() as int;
        match source.next() {
            Some(item) => {
                proof {
                    assert(all.skip(k)[0] == all[k]);
                }
                let f = filter_resolution(version, item);
                out.push(f);
                proof {
                    assert(all.take(k + 1).drop_last() =~= all.take(k));
                    assert(out@ =~= filtered(all.take(k + 1), version)) by {
                        assert(all.take(k + 1)[k] == all[k]);
                        assert(forall|i: int|
                            0 <= i < k ==> all.take(k + 1)[i] == all.take(k)[i]);
                    }
                    assert(all.skip(k).drop_first() =~= all.skip(k + 1));
                }
            },
            None => {
                proof {
                    assert(all.take(k) =~= all);
                }
                return Resolutions::from_vec(out);
            },
        }
    }
}

/// The first success of a validated stream, every error before it skipped
/// (discarded, never retried). `None` exactly when the stream holds no
/// success at all.
pub open spec fn first_success(s: Seq<ResolutionResult>) -> Option<(Addr, Details)>
    decreases s.len(),
{
    if s.len() == 0 {
        None
    } else {
        match s[0] {
            Ok(p) => Some(p),
            Err(_) => first_success(s.drop_first()),
        }
    }
}

/// The address of a stream's first success, if any.
pub open spec fn first_success_addr(s: Seq<ResolutionResult>) -> Option<Addr> {
    match first_success(s) {
        Some(p) => Some(p.0),
        None => None,
    }
}

/// Filtering commutes with consuming one item: dropping the head of a
/// filtered stream filters the stream's tail.
proof fn lemma_filtered_drop_first(s: Seq<ResolutionResult>, version: Version)
    requires
        s.len() > 0,
    ensures
        filtered(s, version).drop_first() == filtered(s.drop_first(), version),
{
    assert(filtered(s, version).drop_first() =~= filtered(s.drop_first(), version));
}

/// Given a [`Resolver`] and requested [`Version`], attempts to produce an IP
/// address along with the details of how it was resolved (best effort).
///
/// This function will attempt to resolve until the stream is empty and will
/// drop/ignore any resolver errors; a failed resolver is never invoked a
/// second time. The merged stream is pulled lazily: once a success is found,
/// nothing after it is started.
pub fn addr_with_details<R: Resolver>(resolver: R, version: Version) -> (r: Option<
    (Addr, Details),
>)
    ensures
        r == first_success(filtered(resolver.outcomes(version), version)),
{
    let mut backing: Vec<R> = Vec::new();
    backing.push(resolver);
    proof {
        reveal_with_fuel(concat_outcomes, 2);
        assert(backing@.drop_first() =~= Seq::<R>::empty());
        assert(backing@[0] == resolver);
        assert(concat_outcomes(backing@, version) =~= resolver.outcomes(version));
    }
    let mut merged = FallbackStream::new(backing.as_slice(), version);
    loop
        invariant
            merged.wf(),
            first_success(filtered(merged@, version)) == first_success(
                filtered(resolver.outcomes(version), version),
            ),
        decreases merged@.len(),
    {
        let ghost pre = merged@;
        match merged.next() {
            Some(item) => {
                proof {
                    lemma_filtered_drop_first(pre, version);
                    assert(filtered(pre, version)[0] == filter_item(version, pre[0]));
                }
                match filter_resolution(version, item) {
                    Ok(p) => {
                        proof {
                            assert(first_success(filtered(pre, version)) == Some(p));
                        }
                        return Some(p);
                    },
                    Err(_) => {
                        proof {
                            assert(first_success(filtered(pre, version)) == first_success(
                                filtered(pre, version).drop_first(),
                            ));
                        }
                    },
                }
            },
            None => {
                proof {
                    assert(filtered(pre, version).len() == 0);
                }
                return None;
            },
        }
    }
}

/// Given a [`Resolver`] and requested [`Version`], attempts to produce an IP
/// address (best effort).
///
/// This function will attempt to resolve until the stream is empty and will
/// drop/ignore any resolver errors.
pub fn addr_with<R: Resolver>(resolver: R, version: Version) -> (r: Option<Addr>)
    ensures
        r == first_success_addr(filtered(resolver.outcomes(version), version)),
{
    match addr_with_details(resolver, version) {
        Some((a, _)) => Some(a),
        None => None,
    }
}

/// Order-preservation law: the merged sequence of an ordered resolver list
/// splits, at any point `i` of the list, into the concatenation of what the
/// first `i` resolvers yield and what the remaining resolvers yield — so it
/// equals each resolver's own sequence drained independently, laid end to
/// end, in list order.
pub proof fn lemma_fallback_concatenation<R: Resolver>(resolvers: Seq<R>, i: int, version: Version)
    requires
        0 <= i <= resolvers.len(),
    ensures
        concat_outcomes(resolvers, version) == concat_outcomes(resolvers.take(i), version)
            + concat_outcomes(resolvers.skip(i), version),
    decreases i,
{
    if i == 0 {
        assert(resolvers.take(0) =~= Seq::<R>::empty());
        assert(resolvers.skip(0) =~= resolvers);
        assert(concat_outcomes(resolvers.take(0), version) + concat_outcomes(
            resolvers.skip(0),
            version,
        ) =~= concat_outcomes(resolvers, version));
    } else {
        lemma_fallback_concatenation(resolvers.drop_first(), i - 1, version);
        assert(resolvers.take(i).drop_first() =~= resolvers.drop_first().take(i - 1));
        assert(resolvers.skip(i) =~= resolvers.drop_first().skip(i - 1));
        assert(resolvers.take(i)[0] == resolvers[0]);
        assert(concat_outcomes(resolvers, version) =~= concat_outcomes(resolvers.take(i), version)
            + concat_outcomes(resolvers.skip(i), version));
    }
}

/// Empty-collection law: an empty resolver list yields an immediately
/// exhausted merged sequence, its validated stream is empty too, and best
/// effort over it finds nothing.
pub proof fn lemma_empty_resolver_list<R: Resolver>(version: Version)
    ensures
        concat_outcomes(Seq::<R>::empty(), version) == Seq::<ResolutionResult>::empty(),
        filtered(Seq::<ResolutionResult>::empty(), version) == Seq::<ResolutionResult>::empty(),
        first_success(Seq::<ResolutionResult>::empty()) is None,
        first_success_addr(Seq::<ResolutionResult>::empty()) is None,
{
    assert(filtered(Seq::<ResolutionResult>::empty(), version) =~= Seq::<
        ResolutionResult,
    >::empty());
}

/// Error-skipping law: if every item of a stream's prefix is an error, the
/// first success of the whole stream is the first success of what follows
/// the prefix — so a resolver that yields only errors never decides the
/// best-effort result, and the next resolver's success is returned.
pub proof fn lemma_first_success_skips_errors(s0: Seq<ResolutionResult>, s1: Seq<ResolutionResult>)
    requires
        forall|i: int| 0 <= i < s0.len() ==> s0[i] is Err,
    ensures
        first_success(s0 + s1) == first_success(s1),
    decreases s0.len(),
{
    if s0.len() == 0 {
        assert(s0 + s1 =~= s1);
    } else {
        assert((s0 + s1)[0] == s0[0]);
        assert((s0 + s1).drop_first() =~= s0.drop_first() + s1);
        lemma_first_success_skips_errors(s0.drop_first(), s1);
    }
}

/// Version post-filter law, pointwise: filtering keeps the stream's length
/// and positions; a success of the requested family and every error pass
/// through unchanged; a success of another family becomes [`Error::Version`]
/// at the same position (recorded, not dropped); and every success of the
/// filtered stream matches the requested version.
pub proof fn lemma_filtered_pointwise(s: Seq<ResolutionResult>, version: Version, i: int)
    requires
        0 <= i < s.len(),
    ensures
        filtered(s, version).len() == s.len(),
        filtered(s, version)[i] == filter_item(version, s[i]),
        s[i] is Ok && version.spec_matches(s[i]->Ok_0.0) ==> filtered(s, version)[i] == s[i],
        s[i] is Ok && !version.spec_matches(s[i]->Ok_0.0) ==> filtered(s, version)[i] == Err::<
            (Addr, Details),
            Error,
        >(Error::Version),
        s[i] is Err ==> filtered(s, version)[i] == s[i],
        filtered(s, version)[i] is Ok ==> version.spec_matches(filtered(s, version)[i]->Ok_0.0),
{
}

/// Repeatability law: two streams produced from the same resolver and the
/// same requested version hold the same items. Each call of `resolve` builds
/// a structurally independent stream, so consuming one leaves the other
/// untouched.
pub proof fn lemma_resolve_repeatable<R: Resolver>(
    resolver: &R,
    version: Version,
    r1: Resolutions,
    r2: Resolutions,
)
    requires
        r1@ == filtered(resolver.outcomes(version), version),
        r2@ == filtered(resolver.outcomes(version), version),
    ensures
        r1@ == r2@,
{
}

/// An ordered collection of resolvers is itself a resolver: it drains each
/// member fully, in order, before moving to the next (fallback composition).
impl<R: Resolver> Resolver for Vec<R> {
    open spec fn outcomes(&self, version: Version) -> Seq<ResolutionResult> {
        concat_outcomes(self@, version)
    }

    fn resolve(&self, version: Version) -> (r: Resolutions)
        ensures
            r.wf(),
            r@ == self.outcomes(version),
    {
        drain_fallback(self.as_slice(), version)
    }
}

/// A reference to a resolver is a resolver, so one configured list can serve
/// many resolution attempts.
impl<'r, R: Resolver> Resolver for &'r R {
    open spec fn outcomes(&self, version: Version) -> Seq<ResolutionResult> {
        (**self).outcomes(version)
    }

    fn resolve(&self, version: Version) -> (r: Resolutions)
        ensures
            r.wf(),
            r@ == self.outcomes(version),
    {
        (**self).resolve(version)
    }
}

} // verus!
