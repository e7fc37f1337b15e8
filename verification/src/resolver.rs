//! Resolver composition: fixed-outcome resolvers, resolvers built from a
//! fallible construction, and ordered lists driven by the fallback
//! combinator.

use vstd::prelude::*;

use crate::Error;
use crate::ResolutionResult;
use crate::Resolutions;
use crate::Resolver;
use crate::Version;
use crate::clone_resolution;
use crate::concat_outcomes;
use crate::drain_fallback;

verus! {

/// A resolver that replays a fixed list of outcomes, whatever version is
/// requested. It stands in for a strategy whose results are already known:
/// a stub in tests, or attempts that were computed elsewhere.
pub struct StaticResolver {
    items: Vec<ResolutionResult>,
}

impl StaticResolver {
    /// The outcomes this resolver replays.
    pub closed spec fn spec_items(&self) -> Seq<ResolutionResult> {
        self.items@
    }

    /// A resolver that will yield exactly `items`, in order.
    pub fn new(items: Vec<ResolutionResult>) -> (r: Self)
        ensures
            r.spec_items() == items@,
    {
        StaticResolver { items }
    }
}

impl Resolver for StaticResolver {
    open spec fn outcomes(&self, version: Version) -> Seq<ResolutionResult> {
        self.spec_items()
    }

    fn resolve(&self, version: Version) -> (r: Resolutions)
        ensures
            r.wf(),
            r@ == self.outcomes(version),
    {
        let mut items: Vec<ResolutionResult> = Vec::new();
        let mut i: usize = 0;
        while i < self.items.len()
            invariant
                i <= self.items.len(),
                items@ == self.items@.take(i as int),
            decreases self.items.len() - i,
        {
            let it = clone_resolution(&self.items[i]);
            items.push(it);
            i = i + 1;
            proof {
                assert(items@ =~= self.items@.take(i as int));
            }
        }
        proof {
            assert(self.items@.take(self.items@.len() as int) =~= self.items@);
        }
        Resolutions::from_vec(items)
    }
}

/// A resolver built from a `Result`: the inner resolver where construction
/// succeeded, otherwise a resolver whose whole stream is that one error.
pub struct ResultResolver<R> {
    inner: Result<R, Error>,
}

impl<R> ResultResolver<R> {
    /// The construction result this resolver was built from.
    pub closed spec fn spec_inner(&self) -> Result<R, Error> {
        self.inner
    }

    /// Wrap a construction result as a resolver.
    pub fn new(result: Result<R, Error>) -> (r: Self)
        ensures
            r.spec_inner() == result,
    {
        ResultResolver { inner: result }
    }
}

impl<R: Resolver> Resolver for ResultResolver<R> {
    open spec fn outcomes(&self, version: Version) -> Seq<ResolutionResult> {
        match self.spec_inner() {
            Ok(inner) => inner.outcomes(version),
            Err(e) => seq![Err(e)],
        }
    }

    fn resolve(&self, version: Version) -> (r: Resolutions)
        ensures
            r.wf(),
            r@ == self.outcomes(version),
    {
        match &self.inner {
            Ok(inner) => inner.resolve(version),
            Err(e) => {
                let mut items: Vec<ResolutionResult> = Vec::new();
                items.push(Err(e.clone()));
                proof {
                    assert(items@ =~= seq![Err::<_, Error>(*e)]);
                }
                Resolutions::from_vec(items)
            },
        }
    }
}

/// An ordered list of resolvers behind one named type; resolving drains each
/// member fully, in order, before starting the next.
pub struct ResolverList<R> {
    resolvers: Vec<R>,
}

impl<R> ResolverList<R> {
    /// The members, in priority order.
    pub closed spec fn spec_resolvers(&self) -> Seq<R> {
        self.resolvers@
    }

    /// Compose `resolvers` into one resolver that tries them in order.
    pub fn new(resolvers: Vec<R>) -> (r: Self)
        ensures
            r.spec_resolvers() == resolvers@,
    {
        ResolverList { resolvers }
    }
}

impl<R: Resolver> Resolver for ResolverList<R> {
    open spec fn outcomes(&self, version: Version) -> Seq<ResolutionResult> {
        concat_outcomes(self.spec_resolvers(), version)
    }

    fn resolve(&self, version: Version) -> (r: Resolutions)
        ensures
            r.wf(),
            r@ == self.outcomes(version),
    {
        drain_fallback(self.resolvers.as_slice(), version)
    }
}

} // verus!
